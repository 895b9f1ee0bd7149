use vstd::prelude::*;

use crate::consts::{
    default_integer, integer_default, is_bytes_code, is_integer_code,
};
use crate::param::{
    encodable, entry_bytes, entry_decode, lemma_entry_round_trip, valid_entry, Error, ParamValue,
    TransportParameter,
};
use crate::varint::{
    lemma_u16_round_trip, lemma_varint_round_trip, u16_bytes, varint_bytes, varint_len, VARINT_MAX,
};

verus! {

/// The map that a list of entries stands for: a later entry for a code
/// replaces an earlier one.
pub open spec fn map_of(s: Seq<(u16, ParamValue)>) -> Map<u16, ParamValue>
    decreases s.len(),
{
    if s.len() == 0 {
        Map::empty()
    } else {
        map_of(s.drop_last()).insert(s.last().0, s.last().1)
    }
}

/// Wire form of a list of entries: their wire forms back to back.
pub open spec fn entries_bytes(s: Seq<(u16, ParamValue)>) -> Seq<u8>
    decreases s.len(),
{
    if s.len() == 0 {
        Seq::empty()
    } else {
        entry_bytes(s[0].0, s[0].1) + entries_bytes(s.drop_first())
    }
}

/// Result of decoding all of `s` into the map `acc`: entries are read until
/// the input ends, unknown entries are skipped, a later entry for a code
/// replaces an earlier one, and any other failure ends the decoding.
pub open spec fn decode_entries(s: Seq<u8>, acc: Map<u16, ParamValue>) -> Result<
    Map<u16, ParamValue>,
    Error,
>
    decreases s.len(),
{
    if s.len() == 0 {
        Ok(acc)
    } else {
        let (r, n) = entry_decode(s);
        match r {
            Ok((code, p)) => if 0 < n <= s.len() {
                decode_entries(s.subrange(n as int, s.len() as int), acc.insert(code, p))
            } else {
                Err(Error::NoMoreData)
            },
            Err(Error::UnknownTransportParameter) => if 0 < n <= s.len() {
                decode_entries(s.subrange(n as int, s.len() as int), acc)
            } else {
                Err(Error::NoMoreData)
            },
            Err(e) => Err(e),
        }
    }
}

/// Result of decoding a whole parameter block.
pub open spec fn decode_block(s: Seq<u8>) -> Result<Map<u16, ParamValue>, Error> {
    decode_entries(s, Map::empty())
}

/// A set of transport parameters, keyed by code.
#[derive(Debug)]
pub struct TransportParameters {
    params: Vec<(u16, TransportParameter)>,
}

impl View for TransportParameters {
    type V = Map<u16, ParamValue>;

    open spec fn view(&self) -> Map<u16, ParamValue> {
        map_of(self.entries())
    }
}

impl TransportParameters {
    /// The entries in the order they are held (and encoded).
    pub closed spec fn entries(&self) -> Seq<(u16, ParamValue)> {
        self.params@.map_values(|e: (u16, TransportParameter)| (e.0, e.1@))
    }

    /// Each code appears once, and holds the kind of value its code calls
    /// for, in a size the wire format can carry.
    pub open spec fn wf(&self) -> bool {
        &&& unique_codes(self.entries())
        &&& forall|i: int|
            0 <= i < self.entries().len() ==> #[trigger] well_typed(
                self.entries()[i].0,
                self.entries()[i].1,
            )
    }

    /// The wire form that `encode` writes.
    pub open spec fn encoding(&self) -> Seq<u8> {
        entries_bytes(self.entries())
    }
}

/// A value of the kind its code calls for, in a size the wire format carries.
pub open spec fn well_typed(code: u16, p: ParamValue) -> bool {
    encodable(p) && match p {
        ParamValue::Bytes(_) => is_bytes_code(code),
        ParamValue::Integer(_) => is_integer_code(code),
        ParamValue::Empty => false,
    }
}

/// No code appears twice in `s`.
pub open spec fn unique_codes(s: Seq<(u16, ParamValue)>) -> bool {
    forall|i: int, j: int| 0 <= i < j < s.len() ==> #[trigger] s[i].0 != #[trigger] s[j].0
}

/// No entry after index `i` has the code of entry `i`.
pub open spec fn last_with_code(s: Seq<(u16, ParamValue)>, i: int) -> bool {
    forall|j: int| i < j < s.len() ==> #[trigger] s[j].0 != s[i].0
}

proof fn lemma_map_of_lookup(s: Seq<(u16, ParamValue)>, i: int)
    requires
        0 <= i < s.len(),
        last_with_code(s, i),
    ensures
        map_of(s).contains_key(s[i].0),
        map_of(s)[s[i].0] == s[i].1,
    decreases s.len(),
{
    if i < s.len() - 1 {
        let t = s.drop_last();
        assert(t[i] == s[i]);
        assert forall|j: int| i < j < t.len() implies #[trigger] t[j].0 != t[i].0 by {
            assert(t[j] == s[j]);
        }
        lemma_map_of_lookup(t, i);
        assert(s[s.len() - 1].0 != s[i].0);
    }
}

proof fn lemma_map_of_contains(s: Seq<(u16, ParamValue)>, i: int)
    requires
        0 <= i < s.len(),
    ensures
        map_of(s).contains_key(s[i].0),
    decreases s.len(),
{
    if i < s.len() - 1 {
        let t = s.drop_last();
        assert(t[i] == s[i]);
        lemma_map_of_contains(t, i);
    }
}

proof fn lemma_map_of_absent(s: Seq<(u16, ParamValue)>, k: u16)
    requires
        forall|i: int| 0 <= i < s.len() ==> #[trigger] s[i].0 != k,
    ensures
        !map_of(s).contains_key(k),
    decreases s.len(),
{
    if s.len() > 0 {
        let t = s.drop_last();
        assert forall|i: int| 0 <= i < t.len() implies #[trigger] t[i].0 != k by {
            assert(t[i] == s[i]);
        }
        lemma_map_of_absent(t, k);
        assert(s.last() == s[s.len() - 1]);
    }
}

proof fn lemma_map_of_has(s: Seq<(u16, ParamValue)>, k: u16) -> (i: int)
    requires
        map_of(s).contains_key(k),
    ensures
        0 <= i < s.len(),
        s[i].0 == k,
    decreases s.len(),
{
    if s.last().0 == k {
        s.len() - 1
    } else {
        let t = s.drop_last();
        let j = lemma_map_of_has(t, k);
        assert(t[j] == s[j]);
        j
    }
}

proof fn lemma_map_of_update(s: Seq<(u16, ParamValue)>, i: int, p: ParamValue)
    requires
        0 <= i < s.len(),
        last_with_code(s, i),
    ensures
        map_of(s.update(i, (s[i].0, p))) == map_of(s).insert(s[i].0, p),
    decreases s.len(),
{
    let u = s.update(i, (s[i].0, p));
    let t = s.drop_last();
    if i == s.len() - 1 {
        assert(u.drop_last() =~= t);
        assert(map_of(u) =~= map_of(s).insert(s[i].0, p));
    } else {
        assert(t[i] == s[i]);
        assert forall|j: int| i < j < t.len() implies #[trigger] t[j].0 != t[i].0 by {
            assert(t[j] == s[j]);
        }
        lemma_map_of_update(t, i, p);
        assert(u.drop_last() =~= t.update(i, (s[i].0, p)));
        assert(s[s.len() - 1].0 != s[i].0);
        assert(map_of(u) =~= map_of(s).insert(s[i].0, p));
    }
}

proof fn lemma_entries_bytes_push(s: Seq<(u16, ParamValue)>, x: (u16, ParamValue))
    ensures
        entries_bytes(s.push(x)) == entries_bytes(s) + entry_bytes(x.0, x.1),
    decreases s.len(),
{
    if s.len() == 0 {
        let z = Seq::<(u16, ParamValue)>::empty();
        assert(s.push(x).drop_first() =~= z);
        assert(s.push(x)[0] == x);
        assert(entries_bytes(z) == Seq::<u8>::empty());
        assert(entries_bytes(s) == Seq::<u8>::empty());
        assert(entries_bytes(s.push(x)) =~= entries_bytes(s) + entry_bytes(x.0, x.1));
    } else {
        assert(s.push(x).drop_first() =~= s.drop_first().push(x));
        lemma_entries_bytes_push(s.drop_first(), x);
        assert(s.push(x)[0] == s[0]);
        let h = entry_bytes(s[0].0, s[0].1);
        assert(entries_bytes(s.push(x)) == h + (entries_bytes(s.drop_first()) + entry_bytes(
            x.0,
            x.1,
        )));
        assert(entries_bytes(s.push(x)) =~= entries_bytes(s) + entry_bytes(x.0, x.1));
    }
}

/// Decoding the wire form of valid entries, after the entries `done`, gives
/// the map of all of them.
proof fn lemma_entries_round_trip(done: Seq<(u16, ParamValue)>, es: Seq<(u16, ParamValue)>)
    requires
        forall|i: int| 0 <= i < es.len() ==> valid_entry(#[trigger] es[i].0, es[i].1),
    ensures
        decode_entries(entries_bytes(es), map_of(done)) == Ok::<Map<u16, ParamValue>, Error>(
            map_of(done + es),
        ),
    decreases es.len(),
{
    if es.len() == 0 {
        assert(done + es =~= done);
    } else {
        let x = es[0];
        let rest = es.drop_first();
        assert forall|i: int| 0 <= i < rest.len() implies valid_entry(
            #[trigger] rest[i].0,
            rest[i].1,
        ) by {
            assert(rest[i] == es[i + 1]);
        }
        let tail = entries_bytes(rest);
        lemma_entry_round_trip(x.0, x.1, tail);
        let b = entries_bytes(es);
        let n = entry_bytes(x.0, x.1).len();
        assert(b.subrange(n as int, b.len() as int) =~= tail);
        lemma_entries_round_trip(done.push(x), rest);
        assert(done.push(x) + rest =~= done + es);
        assert(done.push(x).drop_last() =~= done);
    }
}

impl Default for TransportParameters {
    fn default() -> (r: TransportParameters)
        ensures
            r.wf(),
            r@ == Map::<u16, ParamValue>::empty(),
            r.entries().len() == 0,
    {
        let r = TransportParameters { params: Vec::new() };
        assert(r.entries() =~= Seq::<(u16, ParamValue)>::empty());
        r
    }
}

impl TransportParameters {
    proof fn lemma_entries_view(&self)
        ensures
            self.entries().len() == self.params@.len(),
            forall|i: int|
                0 <= i < self.params@.len() ==> #[trigger] self.entries()[i] == (
                self.params@[i].0,
                self.params@[i].1@,
                ),
    {
    }

    proof fn lemma_has_code(&self, i: int)
        requires
            0 <= i < self.entries().len(),
        ensures
            self@.contains_key(self.entries()[i].0),
    {
        lemma_map_of_contains(self.entries(), i);
    }

    /// Index of the last entry for `tipe`, if there is one.
    fn find(&self, tipe: u16) -> (r: Option<usize>)
        ensures
            match r {
                Some(i) => {
                    &&& i < self.entries().len()
                    &&& self.entries()[i as int].0 == tipe
                    &&& last_with_code(self.entries(), i as int)
                    &&& self@.contains_key(tipe)
                    &&& self@[tipe] == self.entries()[i as int].1
                },
                None => {
                    &&& !self@.contains_key(tipe)
                    &&& forall|j: int|
                        0 <= j < self.entries().len() ==> #[trigger] self.entries()[j].0 != tipe
                },
            },
    {
        proof {
            self.lemma_entries_view();
        }
        let mut i: usize = self.params.len();
        while i > 0
            invariant
                i <= self.params@.len(),
                self.entries().len() == self.params@.len(),
                forall|j: int|
                    0 <= j < self.params@.len() ==> #[trigger] self.entries()[j] == (
                    self.params@[j].0,
                    self.params@[j].1@,
                    ),
                forall|j: int| i <= j < self.params@.len() ==> #[trigger] self.entries()[j].0 != tipe,
            decreases i,
        {
            i = i - 1;
            if self.params[i].0 == tipe {
                proof {
                    lemma_map_of_lookup(self.entries(), i as int);
                }
                return Some(i);
            }
        }
        proof {
            lemma_map_of_absent(self.entries(), tipe);
        }
        None
    }

    /// Stores `tp` under `tipe`, replacing what was there.
    fn insert(&mut self, tipe: u16, tp: TransportParameter)
        requires
            old(self).wf(),
            well_typed(tipe, tp@),
        ensures
            final(self).wf(),
            final(self)@ == old(self)@.insert(tipe, tp@),
    {
        let ghost p = tp@;
        let ghost before = self.entries();
        proof {
            self.lemma_entries_view();
        }
        match self.find(tipe) {
            Some(i) => {
                self.params.set(i, (tipe, tp));
                proof {
                    self.lemma_entries_view();
                    assert(self.entries() =~= before.update(i as int, (tipe, p)));
                    lemma_map_of_update(before, i as int, p);
                }
            },
            None => {
                self.params.push((tipe, tp));
                proof {
                    self.lemma_entries_view();
                    assert(self.entries() =~= before.push((tipe, p)));
                    assert(self.entries().drop_last() =~= before);
                }
            },
        }
    }

    /// Whether the set holds an entry for `tipe`, of whatever kind.
    pub fn was_sent(&self, tipe: u16) -> (r: bool)
        ensures
            r == self@.contains_key(tipe),
    {
        match self.find(tipe) {
            Some(i) => true,
            None => false,
        }
    }
}

fn copy_bytes(a: &Vec<u8>) -> (r: Vec<u8>)
    ensures
        r@ == a@,
{
    let mut r: Vec<u8> = Vec::new();
    let mut i: usize = 0;
    while i < a.len()
        invariant
            i <= a@.len(),
            r@ == a@.take(i as int),
        decreases a@.len() - i,
    {
        r.push(a[i]);
        i = i + 1;
        assert(r@ =~= a@.take(i as int));
    }
    assert(a@.take(a@.len() as int) =~= a@);
    r
}

impl TransportParameters {
    /// Appends the wire form of every entry.
    pub fn encode(&self, d: &mut Vec<u8>) -> (r: Result<(), Error>)
        requires
            self.wf(),
        ensures
            r is Ok,
            final(d)@ == old(d)@ + self.encoding(),
    {
        proof {
            self.lemma_entries_view();
        }
        let ghost es = self.entries();
        let mut i: usize = 0;
        while i < self.params.len()
            invariant
                i <= self.params@.len(),
                self.wf(),
                es == self.entries(),
                es.len() == self.params@.len(),
                forall|j: int|
                    0 <= j < self.params@.len() ==> #[trigger] es[j] == (
                    self.params@[j].0,
                    self.params@[j].1@,
                    ),
                d@ == old(d)@ + entries_bytes(es.take(i as int)),
            decreases self.params@.len() - i,
        {
            let (tipe, tp) = &self.params[i];
            assert(well_typed(es[i as int].0, es[i as int].1));
            let _ = tp.encode(d, *tipe);
            proof {
                lemma_entries_bytes_push(es.take(i as int), es[i as int]);
                assert(es.take(i + 1) =~= es.take(i as int).push(es[i as int]));
            }
            i = i + 1;
        }
        assert(es.take(es.len() as int) =~= es);
        Ok(())
    }

    /// Reads a whole parameter block. Entries with unknown codes are
    /// skipped; a later entry for a code replaces an earlier one.
    pub fn decode(d: &[u8]) -> (r: Result<TransportParameters, Error>)
        ensures
            match (r, decode_block(d@)) {
                (Ok(t), Ok(m)) => t.wf() && t@ == m,
                (Err(e), Err(e2)) => e == e2,
                _ => false,
            },
    {
        let mut tps = TransportParameters::default();
        let mut pos: usize = 0;
        assert(d@.subrange(0, d@.len() as int) =~= d@);
        while pos < d.len()
            invariant
                pos <= d@.len(),
                tps.wf(),
                decode_entries(d@.subrange(pos as int, d@.len() as int), tps@) == decode_block(
                    d@,
                ),
            decreases d@.len() - pos,
        {
            let ghost s = d@.subrange(pos as int, d@.len() as int);
            let ghost before = pos;
            match TransportParameter::decode(d, &mut pos) {
                Ok((tipe, tp)) => {
                    tps.insert(tipe, tp);
                },
                Err(Error::UnknownTransportParameter) => {},
                Err(e) => {
                    return Err(e);
                },
            }
            assert(s.subrange((pos - before) as int, s.len() as int) =~= d@.subrange(
                pos as int,
                d@.len() as int,
            ));
        }
        assert(d@.subrange(pos as int, d@.len() as int) =~= Seq::<u8>::empty());
        Ok(tps)
    }

    /// The integer stored under `tipe`, or the code's default when the set
    /// has no entry for it.
    pub fn get_integer(&self, tipe: u16) -> (r: u64)
        requires
            self.wf(),
            is_integer_code(tipe),
        ensures
            self@.contains_key(tipe) ==> self@[tipe] == ParamValue::Integer(r),
            !self@.contains_key(tipe) ==> r == integer_default(tipe),
    {
        let default = default_integer(tipe);
        match self.find(tipe) {
            None => default,
            Some(i) => {
                proof {
                    self.lemma_entries_view();
                    assert(well_typed(self.entries()[i as int].0, self.entries()[i as int].1));
                }
                match &self.params[i].1 {
                    TransportParameter::Integer(x) => *x,
                    _ => default,
                }
            },
        }
    }

    /// Stores the integer `value` under `tipe`.
    pub fn set_integer(&mut self, tipe: u16, value: u64)
        requires
            old(self).wf(),
            is_integer_code(tipe),
            value <= VARINT_MAX,
        ensures
            final(self).wf(),
            final(self)@ == old(self)@.insert(tipe, ParamValue::Integer(value)),
    {
        self.insert(tipe, TransportParameter::Integer(value));
    }

    /// A copy of the bytes stored under `tipe`, or `None` when the set has
    /// no entry for it.
    pub fn get_bytes(&self, tipe: u16) -> (r: Option<Vec<u8>>)
        requires
            self.wf(),
            is_bytes_code(tipe),
        ensures
            r is None <==> !self@.contains_key(tipe),
            r matches Some(b) ==> self@[tipe] == ParamValue::Bytes(b@),
    {
        match self.find(tipe) {
            None => None,
            Some(i) => {
                proof {
                    self.lemma_entries_view();
                    assert(well_typed(self.entries()[i as int].0, self.entries()[i as int].1));
                }
                match &self.params[i].1 {
                    TransportParameter::Bytes(x) => Some(copy_bytes(x)),
                    _ => None,
                }
            },
        }
    }

    /// Stores the bytes `value` under `tipe`.
    pub fn set_bytes(&mut self, tipe: u16, value: Vec<u8>)
        requires
            old(self).wf(),
            is_bytes_code(tipe),
            value@.len() <= 0xffff,
        ensures
            final(self).wf(),
            final(self)@ == old(self)@.insert(tipe, ParamValue::Bytes(value@)),
    {
        self.insert(tipe, TransportParameter::Bytes(value));
    }
}

/// Both maps hold `k`, with the same value.
pub open spec fn agree_at(a: Map<u16, ParamValue>, b: Map<u16, ParamValue>, k: u16) -> bool {
    a.contains_key(k) && b.contains_key(k) && a[k] == b[k]
}

impl PartialEq for TransportParameters {
    /// Two sets are equal when they map the same codes to the same values,
    /// whatever the order of their entries.
    fn eq(&self, other: &TransportParameters) -> (r: bool)
        ensures
            r == (self@ == other@),
    {
        proof {
            self.lemma_entries_view();
            other.lemma_entries_view();
        }
        let mut i: usize = 0;
        while i < self.params.len()
            invariant
                i <= self.params@.len(),
                self.entries().len() == self.params@.len(),
                forall|j: int|
                    0 <= j < self.params@.len() ==> #[trigger] self.entries()[j] == (
                    self.params@[j].0,
                    self.params@[j].1@,
                    ),
                other.entries().len() == other.params@.len(),
                forall|j: int|
                    0 <= j < other.params@.len() ==> #[trigger] other.entries()[j] == (
                    other.params@[j].0,
                    other.params@[j].1@,
                    ),
                forall|j: int| 0 <= j < i ==> agree_at(self@, other@, #[trigger] self.entries()[j].0),
            decreases self.params@.len() - i,
        {
            let k = self.params[i].0;
            assert(self.entries()[i as int].0 == k);
            let a = self.find(k);
            match (a, other.find(k)) {
                (Some(a), Some(b)) => {
                    assert(self@[k] == self.entries()[a as int].1);
                    assert(other@[k] == other.entries()[b as int].1);
                    if !(self.params[a].1 == other.params[b].1) {
                        assert(self@[k] != other@[k]);
                        return false;
                    }
                    assert(self@[k] == other@[k]);
                },
                (_, None) => {
                    assert(!other@.contains_key(k) && self@.contains_key(k));
                    return false;
                },
                (None, _) => {
                    return false;
                },
            }
            assert(agree_at(self@, other@, self.entries()[i as int].0));
            i = i + 1;
        }
        let mut j: usize = 0;
        while j < other.params.len()
            invariant
                j <= other.params@.len(),
                other.entries().len() == other.params@.len(),
                forall|m: int|
                    0 <= m < other.params@.len() ==> #[trigger] other.entries()[m] == (
                    other.params@[m].0,
                    other.params@[m].1@,
                    ),
                forall|m: int| 0 <= m < j ==> #[trigger] self@.contains_key(other.entries()[m].0),
                forall|m: int|
                    0 <= m < self.entries().len() ==> agree_at(
                        self@,
                        other@,
                        #[trigger] self.entries()[m].0,
                    ),
            decreases other.params@.len() - j,
        {
            let k = other.params[j].0;
            assert(other.entries()[j as int].0 == k);
            match self.find(k) {
                Some(_) => {},
                None => {
                    assert(other.entries()[j as int].0 == k);
                    proof {
                        other.lemma_has_code(j as int);
                    }
                    return false;
                },
            }
            j = j + 1;
        }
        proof {
            assert forall|k: u16| #[trigger] self@.contains_key(k) implies other@.contains_key(k)
                && other@[k] == self@[k] by {
                let m = lemma_map_of_has(self.entries(), k);
                assert(agree_at(self@, other@, self.entries()[m].0));
            }
            assert forall|k: u16| #[trigger] other@.contains_key(k) implies self@.contains_key(k) by {
                let m = lemma_map_of_has(other.entries(), k);
                assert(self@.contains_key(other.entries()[m].0));
            }
            assert(self@.dom() =~= other@.dom());
            assert(self@ =~= other@);
        }
        true
    }
}

impl vstd::std_specs::cmp::PartialEqSpecImpl for TransportParameters {
    open spec fn obeys_eq_spec() -> bool {
        true
    }

    open spec fn eq_spec(&self, other: &TransportParameters) -> bool {
        self@ == other@
    }
}

/// Decoding what `encode` writes for a set of valid entries gives the same
/// set back.
pub proof fn lemma_round_trip(tps: &TransportParameters)
    requires
        tps.wf(),
        forall|k: u16| #[trigger] tps@.contains_key(k) ==> valid_entry(k, tps@[k]),
    ensures
        decode_block(tps.encoding()) == Ok::<Map<u16, ParamValue>, Error>(tps@),
{
    let es = tps.entries();
    assert forall|i: int| 0 <= i < es.len() implies valid_entry(#[trigger] es[i].0, es[i].1) by {
        assert forall|j: int| i < j < es.len() implies #[trigger] es[j].0 != es[i].0 by {}
        lemma_map_of_lookup(es, i);
        assert(tps@.contains_key(es[i].0));
    }
    let z = Seq::<(u16, ParamValue)>::empty();
    lemma_entries_round_trip(z, es);
    assert(z + es =~= es);
    assert(map_of(z) == Map::<u16, ParamValue>::empty());
}

/// An entry with a code outside the registry is skipped, and the known entry
/// that follows it is read.
pub proof fn lemma_unknown_skipped(code: u16, payload: Seq<u8>, known: u16, p: ParamValue)
    requires
        !is_bytes_code(code),
        !is_integer_code(code),
        payload.len() <= 0xffff,
        valid_entry(known, p),
    ensures
        decode_block(u16_bytes(code) + u16_bytes(payload.len() as u16) + payload + entry_bytes(
            known,
            p,
        )) == Ok::<Map<u16, ParamValue>, Error>(Map::empty().insert(known, p)),
{
    let e = entry_bytes(known, p);
    let s = u16_bytes(code) + u16_bytes(payload.len() as u16) + payload + e;
    lemma_u16_round_trip(code);
    lemma_u16_round_trip(payload.len() as u16);
    assert(s[0] == u16_bytes(code)[0] && s[1] == u16_bytes(code)[1]);
    assert(s[2] == u16_bytes(payload.len() as u16)[0] && s[3] == u16_bytes(
        payload.len() as u16,
    )[1]);
    let n = 4 + payload.len();
    assert(s.subrange(n as int, s.len() as int) =~= e);
    let z = Seq::<u8>::empty();
    lemma_entry_round_trip(known, p, z);
    assert(e + z =~= e);
    let t = e.subrange(e.len() as int, e.len() as int);
    assert(t =~= z);
    let m0 = Map::<u16, ParamValue>::empty();
    assert(decode_entries(s, m0) == decode_entries(e, m0));
    assert(decode_entries(e, m0) == decode_entries(t, m0.insert(known, p)));
    assert(decode_entries(t, m0.insert(known, p)) == Ok::<Map<u16, ParamValue>, Error>(
        m0.insert(known, p),
    ));
}

/// An integer entry whose declared length differs from the length of the
/// integer's encoding is rejected as a malformed parameter.
pub proof fn lemma_length_mismatch(code: u16, len: u16, v: u64, rest: Seq<u8>)
    requires
        is_integer_code(code),
        v <= VARINT_MAX,
        len != varint_len(v),
    ensures
        decode_block(u16_bytes(code) + u16_bytes(len) + varint_bytes(v) + rest) == Err::<
            Map<u16, ParamValue>,
            Error,
        >(Error::TransportParameterError),
{
    let s = u16_bytes(code) + u16_bytes(len) + varint_bytes(v) + rest;
    lemma_u16_round_trip(code);
    lemma_u16_round_trip(len);
    assert(s[0] == u16_bytes(code)[0] && s[1] == u16_bytes(code)[1]);
    assert(s[2] == u16_bytes(len)[0] && s[3] == u16_bytes(len)[1]);
    assert(s.subrange(4, s.len() as int) =~= varint_bytes(v) + rest);
    lemma_varint_round_trip(v, rest);
}

} // verus!
