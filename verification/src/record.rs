//! The record value model: carriers, records, destructuring and named calls.
//!
//! A carrier attaches a field name to one value and gives it up exactly once;
//! a record is a tuple of carriers in canonical (name-sorted) order. This
//! module realizes the runtime semantics of the code the engine emits:
//! building a record from a construct list, destructuring it against a
//! pattern list, and bridging a named call to a positional one.

use vstd::prelude::*;
use vstd::seq_lib::group_to_multiset_ensures;

use crate::canon::canonicalize;
use crate::canon::distinct_keys;
use crate::canon::find_second_position;
use crate::canon::key_seq;
use crate::canon::lemma_key_contains_multiset;
use crate::canon::lemma_sorted_names_unique;
use crate::canon::lemma_strict_sorted_distinct;
use crate::canon::names_of;
use crate::canon::sorted_strict_keys;
use crate::errors::EngineError;
use crate::fields::effective_mode;
use crate::fields::spec_effective_mode;
use crate::fields::DestructField;
use crate::fields::Keyed;
use crate::fields::Mode;
use crate::fields::Param;
use crate::fields::Target;
use crate::order::lemma_lex_lt_asym;
use crate::order::lex_lt;
use crate::order::name_clone;
use crate::order::name_eq;

verus! {

/// A field in an anonymous record: its name is part of what the consumer
/// checks, and its value can be taken out exactly once.
pub trait Field<T>: Sized {
    /// The field's name.
    spec fn field_name(&self) -> Seq<u8>;

    /// The value the carrier holds.
    spec fn field_value(&self) -> T;

    /// A copy of the field's name.
    fn name(&self) -> (r: Vec<u8>)
        ensures
            r@ == self.field_name(),
    ;

    /// Consumes the carrier and yields the held value.
    fn take(self) -> (r: T)
        ensures
            r == self.field_value(),
    ;
}

/// A carrier: one field's value wrapped together with its name.
#[derive(Clone, Debug)]
pub struct Carrier<V> {
    name: Vec<u8>,
    value: V,
}

impl<V> Carrier<V> {
    /// The carrier's name.
    pub closed spec fn spec_name(&self) -> Seq<u8> {
        self.name@
    }

    /// The carrier's held value.
    pub closed spec fn spec_value(&self) -> V {
        self.value
    }

    /// Wraps one evaluated field expression.
    pub fn new(name: Vec<u8>, value: V) -> (c: Self)
        ensures
            c.spec_name() == name@,
            c.spec_value() == value,
    {
        Carrier { name, value }
    }
}

impl<V> Field<V> for Carrier<V> {
    open spec fn field_name(&self) -> Seq<u8> {
        self.spec_name()
    }

    open spec fn field_value(&self) -> V {
        self.spec_value()
    }

    fn name(&self) -> (r: Vec<u8>) {
        name_clone(&self.name)
    }

    fn take(self) -> (r: V) {
        self.value
    }
}

impl<V> Keyed for Carrier<V> {
    open spec fn key(&self) -> Seq<u8> {
        self.spec_name()
    }

    fn key_lt(&self, other: &Self) -> (r: bool) {
        crate::order::name_lt(&self.name, &other.name)
    }

    fn key_eq(&self, other: &Self) -> (r: bool) {
        name_eq(&self.name, &other.name)
    }

    fn key_vec(&self) -> (r: Vec<u8>) {
        name_clone(&self.name)
    }
}

/// The structural record value: a fixed-arity tuple of carriers in canonical
/// order. The name-to-position mapping is exactly the canonical order of its
/// name set.
#[derive(Clone, Debug)]
pub struct Record<V> {
    slots: Vec<Carrier<V>>,
}

impl<V> Record<V> {
    /// The carriers, in canonical order.
    pub closed spec fn slots_seq(self) -> Seq<Carrier<V>> {
        self.slots@
    }

    /// Well-formed: slot names strictly ascend, so names are distinct and
    /// the layout is the canonical one.
    pub open spec fn wf(self) -> bool {
        sorted_strict_keys(self.slots_seq())
    }

    /// The record's field names, in canonical order.
    pub open spec fn names(self) -> Seq<Seq<u8>> {
        key_seq(self.slots_seq())
    }

    /// Whether a field of this name is present.
    pub open spec fn contains_name(self, n: Seq<u8>) -> bool {
        exists|i: int|
            0 <= i < self.slots_seq().len() && #[trigger] self.slots_seq()[i].spec_name() == n
    }

    /// The value held under a name that is present.
    pub open spec fn value_of(self, n: Seq<u8>) -> V {
        let i = choose|i: int|
            0 <= i < self.slots_seq().len() && #[trigger] self.slots_seq()[i].spec_name() == n;
        self.slots_seq()[i].spec_value()
    }

    /// The number of fields.
    pub fn len(&self) -> (r: usize)
        ensures
            r == self.names().len(),
    {
        self.slots.len()
    }

    /// Each slot of a well-formed record is the one its name selects.
    pub proof fn lemma_slot_value(self, k: int)
        requires
            self.wf(),
            0 <= k < self.slots_seq().len(),
        ensures
            self.contains_name(self.slots_seq()[k].spec_name()),
            self.value_of(self.slots_seq()[k].spec_name()) == self.slots_seq()[k].spec_value(),
    {
        lemma_strict_sorted_distinct(self.slots_seq());
        let n = self.slots_seq()[k].spec_name();
        assert(self.contains_name(n));
        let i = choose|i: int|
            0 <= i < self.slots_seq().len() && #[trigger] self.slots_seq()[i].spec_name() == n;
        if i != k {
            if i < k {
                assert(self.slots_seq()[i].key() != self.slots_seq()[k].key());
            } else {
                assert(self.slots_seq()[k].key() != self.slots_seq()[i].key());
            }
        }
    }

    /// Assembles a record from a construct list whose field expressions are
    /// already evaluated and wrapped: canonically orders the carriers, or
    /// rejects the list if it names a field twice.
    pub fn build(fields: Vec<Carrier<V>>) -> (r: Result<Record<V>, EngineError>)
        ensures
            r is Ok <==> distinct_keys(fields@),
            r matches Ok(rec) ==> {
                &&& rec.wf()
                &&& rec.slots_seq().to_multiset() == fields@.to_multiset()
                &&& rec.names().len() == fields@.len()
                &&& forall|i: int|
                    0 <= i < fields@.len() ==> rec.contains_name(
                        #[trigger] fields@[i].spec_name(),
                    ) && rec.value_of(fields@[i].spec_name()) == fields@[i].spec_value()
                &&& forall|n: Seq<u8>| rec.contains_name(n) ==> key_seq(fields@).contains(n)
            },
            r matches Err(e) ==> {
                &&& e matches EngineError::DuplicateField { name, position }
                &&& exists|i: int, j: int|
                    0 <= i < j < fields@.len() && #[trigger] fields@[i].spec_name()
                        == #[trigger] fields@[j].spec_name() && fields@[i].spec_name() == name@
                &&& position < fields@.len()
                &&& fields@[position as int].spec_name() == name@
                &&& exists|i: int| 0 <= i < position && #[trigger] fields@[i].spec_name() == name@
            },
    {
        let names = names_of(&fields);
        let ghost fields0 = fields@;
        match canonicalize(fields) {
            Ok(slots) => {
                let rec = Record { slots };
                proof {
                    broadcast use vstd::multiset::group_multiset_axioms;
                    broadcast use group_to_multiset_ensures;

                    lemma_strict_sorted_distinct(rec.slots_seq());
                    vstd::seq_lib::to_multiset_len(rec.slots_seq());
                    vstd::seq_lib::to_multiset_len(fields0);
                    assert(rec.names().len() == fields0.len());
                    assert forall|i: int| 0 <= i < fields0.len() implies rec.contains_name(
                        #[trigger] fields0[i].spec_name(),
                    ) && rec.value_of(fields0[i].spec_name()) == fields0[i].spec_value() by {
                        assert(fields0.contains(fields0[i]));
                        assert(rec.slots_seq().to_multiset().count(fields0[i]) > 0);
                        assert(rec.slots_seq().contains(fields0[i]));
                        let j = choose|j: int|
                            0 <= j < rec.slots_seq().len() && rec.slots_seq()[j] == fields0[i];
                        assert(rec.slots_seq()[j].spec_name() == fields0[i].spec_name());
                        rec.lemma_slot_value(j);
                    }
                    assert forall|n: Seq<u8>| rec.contains_name(n) implies key_seq(
                        fields0,
                    ).contains(n) by {
                        lemma_key_contains_multiset(rec.slots_seq(), fields0);
                        let i = choose|i: int|
                            0 <= i < rec.slots_seq().len()
                                && #[trigger] rec.slots_seq()[i].spec_name() == n;
                        assert(key_seq(rec.slots_seq())[i] == n);
                        assert(key_seq(rec.slots_seq()).contains(n));
                    }
                }
                Ok(rec)
            },
            Err(n) => {
                proof {
                    let (i, j) = choose|i: int, j: int|
                        0 <= i < j < fields0.len() && #[trigger] fields0[i].key()
                            == #[trigger] fields0[j].key() && n@ == fields0[i].key();
                    assert(names@[i].key() == n@ && names@[j].key() == n@);
                }
                let position = find_second_position(&names, &n);
                Err(EngineError::DuplicateField { name: n, position })
            },
        }
    }

    /// Borrows the value of one field, if the name is present: the
    /// reference-mode extraction, which never consumes the carrier.
    #[verifier::loop_isolation(false)]
    pub fn field_ref<'a>(&'a self, name: &Vec<u8>) -> (r: Option<&'a V>)
        requires
            self.wf(),
        ensures
            r is Some <==> self.contains_name(name@),
            r matches Some(v) ==> *v == self.value_of(name@),
    {
        let mut k: usize = 0;
        while k < self.slots.len()
            invariant
                k <= self.slots@.len(),
                forall|q: int| 0 <= q < k ==> (#[trigger] self.slots@[q].spec_name()) != name@,
            decreases self.slots@.len() - k,
        {
            if name_eq(&self.slots[k].name, name) {
                proof {
                    self.lemma_slot_value(k as int);
                }
                return Some(&self.slots[k].value);
            }
            k += 1;
        }
        None
    }

    /// Replaces the value of one field through the mutable-reference mode,
    /// returning the previous value; the record keeps its shape.
    #[verifier::loop_isolation(false)]
    pub fn set_field(&mut self, name: &Vec<u8>, value: V) -> (r: Option<V>)
        requires
            old(self).wf(),
        ensures
            final(self).wf(),
            r is Some <==> old(self).contains_name(name@),
            r is None ==> final(self).slots_seq() == old(self).slots_seq(),
            r matches Some(prev) ==> {
                &&& prev == old(self).value_of(name@)
                &&& final(self).names() == old(self).names()
                &&& forall|m: Seq<u8>|
                    final(self).contains_name(m) <==> old(self).contains_name(m)
                &&& final(self).value_of(name@) == value
                &&& forall|m: Seq<u8>|
                    old(self).contains_name(m) && m != name@ ==> final(self).value_of(m) == old(
                        self,
                    ).value_of(m)
            },
    {
        let ghost olds = self.slots@;
        let mut k: usize = 0;
        while k < self.slots.len()
            invariant
                k <= self.slots@.len(),
                self.slots@ == olds,
                forall|q: int| 0 <= q < k ==> (#[trigger] self.slots@[q].spec_name()) != name@,
            decreases self.slots@.len() - k,
        {
            if name_eq(&self.slots[k].name, name) {
                let slot = self.slots.remove(k);
                let Carrier { name: slot_name, value: prev } = slot;
                self.slots.insert(k, Carrier { name: slot_name, value });
                proof {
                    let news = self.slots@;
                    assert forall|q: int| 0 <= q < news.len() implies (
                    #[trigger] news[q].spec_name()) == olds[q].spec_name() && (q != k
                        ==> news[q] == olds[q]) by {
                        olds.remove(k as int).insert_ensures(k as int, news[k as int]);
                        if q < k {
                            assert(news[q] == olds.remove(k as int)[q]);
                        } else if q > k {
                            assert(news[q] == olds.remove(k as int)[q - 1]);
                        }
                    }
                    assert(final(self).names() =~= old(self).names());
                    lemma_strict_sorted_distinct(olds);
                    old(self).lemma_slot_value(k as int);
                    assert forall|m: Seq<u8>| final(self).contains_name(m)
                        <==> old(self).contains_name(m) by {
                        if final(self).contains_name(m) {
                            let i = choose|i: int|
                                0 <= i < news.len() && #[trigger] news[i].spec_name() == m;
                            assert(olds[i].spec_name() == m);
                        }
                        if old(self).contains_name(m) {
                            let i = choose|i: int|
                                0 <= i < olds.len() && #[trigger] olds[i].spec_name() == m;
                            assert(news[i].spec_name() == m);
                        }
                    }
                    assert(final(self).wf()) by {
                        assert forall|i: int, j: int| 0 <= i < j < news.len() implies lex_lt(
                            #[trigger] news[i].key(),
                            #[trigger] news[j].key(),
                        ) by {
                            assert(olds[i].key() == news[i].spec_name());
                            assert(olds[j].key() == news[j].spec_name());
                        }
                    }
                    lemma_strict_sorted_distinct(news);
                    self.lemma_slot_value(k as int);
                    assert(final(self).value_of(name@) == value);
                    assert forall|m: Seq<u8>| old(self).contains_name(m) && m != name@
                        implies final(self).value_of(m) == old(self).value_of(m) by {
                        let i = choose|i: int|
                            0 <= i < olds.len() && #[trigger] olds[i].spec_name() == m;
                        assert(i != k);
                        assert(news[i] == olds[i]);
                        old(self).lemma_slot_value(i);
                        self.lemma_slot_value(i);
                    }
                }
                return Some(prev);
            }
            k += 1;
        }
        None
    }
}

/// One binding a destructuring produces: the bound name (or alias), the
/// effective reference mode, and the field's value.
#[derive(Debug)]
pub struct Binding<V> {
    pub name: Vec<u8>,
    pub target: Target,
    pub mode: Mode,
    pub value: V,
}

/// The pattern list asks for exactly the names the record holds.
pub open spec fn pats_names_match<V>(rec: Record<V>, pats: Seq<DestructField>) -> bool {
    forall|n: Seq<u8>|
        #![trigger key_seq(pats).contains(n)]
        #![trigger rec.contains_name(n)]
        key_seq(pats).contains(n) <==> rec.contains_name(n)
}

/// What a successful destructuring yields: one binding per pattern field, in
/// the record's canonical order; each binding carries the record's value for
/// that name, and the target and effective mode of the pattern field of the
/// same name.
pub open spec fn destructure_post<V>(
    rec: Record<V>,
    list_ref: bool,
    pats: Seq<DestructField>,
    out: Seq<Binding<V>>,
) -> bool {
    &&& out.len() == pats.len()
    &&& out.len() == rec.names().len()
    &&& forall|k: int| 0 <= k < out.len() ==> (#[trigger] out[k]).name@ == rec.names()[k]
    &&& forall|k: int|
        0 <= k < out.len() ==> (#[trigger] out[k]).value == rec.slots_seq()[k].spec_value()
    &&& forall|k: int|
        0 <= k < out.len() ==> rec.contains_name((#[trigger] out[k]).name@) && out[k].value
            == rec.value_of(out[k].name@)
    &&& forall|k: int|
        0 <= k < out.len() ==> exists|i: int|
            0 <= i < pats.len() && (#[trigger] pats[i]).name@ == (#[trigger] out[k]).name@
                && out[k].target == pats[i].target && out[k].mode == spec_effective_mode(
                list_ref,
                pats[i],
            )
}

/// How a rejected destructuring or named call relates to its inputs.
pub open spec fn boundary_err<V>(rec: Record<V>, names: Seq<Seq<u8>>, e: EngineError) -> bool {
    ||| (e matches EngineError::NameMismatch { expected, found } && expected@ != found@
        && names.contains(expected@) && rec.names().contains(found@))
    ||| (e matches EngineError::MissingArgument { name } && names.contains(name@)
        && !rec.contains_name(name@))
    ||| (e matches EngineError::ExtraArgument { name } && rec.contains_name(name@)
        && !names.contains(name@))
}

/// A name is in a record exactly when it is among the record's names.
proof fn lemma_contains_names<V>(rec: Record<V>, n: Seq<u8>)
    ensures
        rec.contains_name(n) <==> rec.names().contains(n),
{
    if rec.contains_name(n) {
        let i = choose|i: int|
            0 <= i < rec.slots_seq().len() && #[trigger] rec.slots_seq()[i].spec_name() == n;
        assert(rec.names()[i] == n);
        assert(rec.names().contains(n));
    }
    if rec.names().contains(n) {
        let i = choose|i: int| 0 <= i < rec.names().len() && rec.names()[i] == n;
        assert(rec.slots_seq()[i].spec_name() == n);
    }
}

/// If a pattern list asks for exactly a record's names, its canonical form
/// lines up with the record's slots name by name.
proof fn lemma_match_forces_alignment<V>(
    rec: Record<V>,
    pats0: Seq<DestructField>,
    cpats: Seq<DestructField>,
)
    requires
        rec.wf(),
        sorted_strict_keys(cpats),
        cpats.to_multiset() == pats0.to_multiset(),
        pats_names_match(rec, pats0),
    ensures
        key_seq(cpats) == rec.names(),
{
    lemma_key_contains_multiset(cpats, pats0);
    assert forall|n: Seq<u8>| key_seq(cpats).contains(n) <==> rec.names().contains(n) by {
        lemma_contains_names(rec, n);
        assert(key_seq(pats0).contains(n) <==> rec.contains_name(n));
    }
    crate::canon::lemma_key_seq_sorted(cpats);
    crate::canon::lemma_key_seq_sorted(rec.slots_seq());
    lemma_sorted_names_unique(key_seq(cpats), rec.names());
}

/// Destructures a record against a pattern list: re-derives the canonical
/// order, checks name for name that the pattern set is exactly the record's
/// field set, and binds each field's value according to its pattern entry
/// and the effective reference mode. A duplicated pattern name, a name the
/// record lacks, or a field the pattern does not consume is rejected.
#[verifier::loop_isolation(false)]
pub fn destructure<V>(rec: Record<V>, list_ref: bool, pats: Vec<DestructField>) -> (r: Result<
    Vec<Binding<V>>,
    EngineError,
>)
    requires
        rec.wf(),
    ensures
        r is Ok <==> (distinct_keys(pats@) && pats_names_match(rec, pats@)),
        r matches Ok(out) ==> destructure_post(rec, list_ref, pats@, out@),
        r matches Err(e) ==> (e matches EngineError::DuplicateField { name, position } && {
            &&& exists|i: int, j: int|
                0 <= i < j < pats@.len() && #[trigger] pats@[i].name@ == #[trigger] pats@[j].name@
                    && pats@[i].name@ == name@
            &&& position < pats@.len()
            &&& pats@[position as int].name@ == name@
            &&& exists|i: int| 0 <= i < position && #[trigger] pats@[i].name@ == name@
        }) || boundary_err(rec, key_seq(pats@), e),
{
    let names = names_of(&pats);
    let ghost pats0 = pats@;
    let cpats = match canonicalize(pats) {
        Ok(c) => c,
        Err(n) => {
            proof {
                let (i, j) = choose|i: int, j: int|
                    0 <= i < j < pats0.len() && #[trigger] pats0[i].key()
                        == #[trigger] pats0[j].key() && n@ == pats0[i].key();
                assert(names@[i].key() == n@ && names@[j].key() == n@);
            }
            let position = find_second_position(&names, &n);
            return Err(EngineError::DuplicateField { name: n, position });
        },
    };
    let ghost cp0 = cpats@;
    proof {
        lemma_key_contains_multiset(cp0, pats0);
    }
    let mut k: usize = 0;
    while k < cpats.len() && k < rec.slots.len()
        invariant
            k <= cp0.len(),
            k <= rec.slots_seq().len(),
            forall|q: int|
                0 <= q < k ==> (#[trigger] cp0[q].name@) == rec.slots_seq()[q].spec_name(),
        decreases cp0.len() - k,
    {
        if !name_eq(&cpats[k].name, &rec.slots[k].name) {
            proof {
                if pats_names_match(rec, pats0) {
                    lemma_match_forces_alignment(rec, pats0, cp0);
                    assert(key_seq(cp0)[k as int] == rec.names()[k as int]);
                    assert(false);
                }
                assert(key_seq(cp0)[k as int] == cp0[k as int].name@);
                assert(key_seq(pats0).contains(cp0[k as int].name@));
                assert(rec.names()[k as int] == rec.slots_seq()[k as int].spec_name());
                assert(rec.names().contains(rec.slots_seq()[k as int].spec_name()));
            }
            let expected = name_clone(&cpats[k].name);
            let found = name_clone(&rec.slots[k].name);
            return Err(EngineError::NameMismatch { expected, found });
        }
        k += 1;
    }
    if k < cpats.len() {
        proof {
            let n = cp0[k as int].name@;
            assert(key_seq(cp0)[k as int] == n);
            assert(key_seq(pats0).contains(n));
            assert(!rec.contains_name(n)) by {
                if rec.contains_name(n) {
                    let m = choose|m: int|
                        0 <= m < rec.slots_seq().len()
                            && #[trigger] rec.slots_seq()[m].spec_name() == n;
                    assert(m < k);
                    assert(cp0[m].name@ == n);
                    assert(lex_lt(cp0[m].key(), cp0[k as int].key()));
                    lemma_lex_lt_asym(cp0[m].key(), cp0[k as int].key());
                }
            }
        }
        let name = name_clone(&cpats[k].name);
        return Err(EngineError::MissingArgument { name });
    }
    if k < rec.slots.len() {
        proof {
            let n = rec.slots_seq()[k as int].spec_name();
            assert(rec.contains_name(n));
            assert(!key_seq(pats0).contains(n)) by {
                if key_seq(pats0).contains(n) {
                    assert(key_seq(cp0).contains(n));
                    let m = choose|m: int|
                        0 <= m < key_seq(cp0).len() && key_seq(cp0)[m] == n;
                    assert(cp0[m].name@ == n);
                    assert(m < k);
                    assert(rec.slots_seq()[m].spec_name() == n);
                    assert(lex_lt(rec.slots_seq()[m].key(), rec.slots_seq()[k as int].key()));
                    lemma_lex_lt_asym(rec.slots_seq()[m].key(), rec.slots_seq()[k as int].key());
                }
            }
        }
        let name = name_clone(&rec.slots[k].name);
        return Err(EngineError::ExtraArgument { name });
    }
    proof {
        assert(cp0.len() == rec.slots_seq().len());
        assert(key_seq(cp0) =~= rec.names());
        assert forall|n: Seq<u8>| key_seq(pats0).contains(n) <==> rec.contains_name(n) by {
            lemma_contains_names(rec, n);
        }
        vstd::seq_lib::to_multiset_len(cp0);
        vstd::seq_lib::to_multiset_len(pats0);
        assert(cp0.len() == pats0.len());
    }
    let Record { slots: mut slots } = rec;
    let mut cp = cpats;
    let ghost slots0 = slots@;
    let mut out: Vec<Binding<V>> = Vec::new();
    while cp.len() > 0
        invariant
            cp@.len() == slots@.len(),
            out@.len() + cp@.len() == cp0.len(),
            slots@ == slots0.skip(out@.len() as int),
            cp@ == cp0.skip(out@.len() as int),
            forall|q: int|
                0 <= q < out@.len() ==> {
                    &&& (#[trigger] out@[q]).name@ == cp0[q].name@
                    &&& out@[q].target == cp0[q].target
                    &&& out@[q].mode == spec_effective_mode(list_ref, cp0[q])
                    &&& out@[q].value == slots0[q].spec_value()
                },
        decreases cp@.len(),
    {
        let ghost kk = out@.len() as int;
        proof {
            assert(slots@[0] == slots0[kk]);
            assert(cp@[0] == cp0[kk]);
        }
        let slot = slots.remove(0);
        let p = cp.remove(0);
        let ghost p0 = p;
        let ghost slot0 = slot;
        let value = slot.take();
        let mode = effective_mode(list_ref, &p);
        let DestructField { by_ref: _, by_mut: _, name, target } = p;
        out.push(Binding { name, target, mode, value });
        proof {
            assert(slots@ =~= slots0.skip(kk + 1));
            assert(cp@ =~= cp0.skip(kk + 1));
            assert(p0 == cp0[kk]);
            assert(slot0 == slots0[kk]);
            assert(out@[kk].name@ == cp0[kk].name@);
            assert(out@[kk].target == cp0[kk].target);
            assert(out@[kk].mode == spec_effective_mode(list_ref, cp0[kk]));
            assert(out@[kk].value == slots0[kk].spec_value());
        }
    }
    proof {
        broadcast use vstd::multiset::group_multiset_axioms;
        broadcast use group_to_multiset_ensures;

        assert forall|q: int| 0 <= q < out@.len() implies rec.contains_name(
            (#[trigger] out@[q]).name@,
        ) && out@[q].value == rec.value_of(out@[q].name@) by {
            rec.lemma_slot_value(q);
            assert(out@[q].name@ == rec.slots_seq()[q].spec_name());
        }
        assert forall|q: int| 0 <= q < out@.len() implies exists|i: int|
            0 <= i < pats0.len() && (#[trigger] pats0[i]).name@ == (#[trigger] out@[q]).name@
                && out@[q].target == pats0[i].target && out@[q].mode == spec_effective_mode(
                list_ref,
                pats0[i],
            ) by {
            assert(cp0.contains(cp0[q]));
            assert(pats0.to_multiset().count(cp0[q]) > 0);
            assert(pats0.contains(cp0[q]));
            let i = choose|i: int| 0 <= i < pats0.len() && pats0[i] == cp0[q];
            assert(pats0[i].name@ == out@[q].name@ && out@[q].target == pats0[i].target && out@[
                q
            ].mode == spec_effective_mode(list_ref, pats0[i]));
        }
    }
    Ok(out)
}

/// Two binding lists that agree name for name on target, mode and value.
pub open spec fn bindings_equiv<V>(o1: Seq<Binding<V>>, o2: Seq<Binding<V>>) -> bool {
    &&& o1.len() == o2.len()
    &&& forall|k: int|
        0 <= k < o1.len() ==> {
            &&& (#[trigger] o1[k]).name@ == (#[trigger] o2[k]).name@
            &&& o1[k].target == o2[k].target
            &&& o1[k].mode == o2[k].mode
            &&& o1[k].value == o2[k].value
        }
}

/// Order independence: destructuring a record against any permutation of a
/// pattern list yields the same bindings as destructuring against the list
/// itself. Only the set of pattern fields matters.
pub proof fn lemma_order_independence<V>(
    rec: Record<V>,
    list_ref: bool,
    p1: Seq<DestructField>,
    p2: Seq<DestructField>,
    o1: Seq<Binding<V>>,
    o2: Seq<Binding<V>>,
)
    requires
        rec.wf(),
        distinct_keys(p1),
        p1.to_multiset() == p2.to_multiset(),
        destructure_post(rec, list_ref, p1, o1),
        destructure_post(rec, list_ref, p2, o2),
    ensures
        bindings_equiv(o1, o2),
{
    broadcast use vstd::multiset::group_multiset_axioms;
    broadcast use group_to_multiset_ensures;

    assert forall|k: int| 0 <= k < o1.len() implies {
        &&& (#[trigger] o1[k]).name@ == (#[trigger] o2[k]).name@
        &&& o1[k].target == o2[k].target
        &&& o1[k].mode == o2[k].mode
        &&& o1[k].value == o2[k].value
    } by {
        assert(o1[k].name@ == rec.names()[k] && o2[k].name@ == rec.names()[k]);
        assert(o1[k].value == rec.slots_seq()[k].spec_value());
        assert(o2[k].value == rec.slots_seq()[k].spec_value());
        let i1 = choose|i: int|
            0 <= i < p1.len() && (#[trigger] p1[i]).name@ == o1[k].name@ && o1[k].target
                == p1[i].target && o1[k].mode == spec_effective_mode(list_ref, p1[i]);
        let i2 = choose|i: int|
            0 <= i < p2.len() && (#[trigger] p2[i]).name@ == o2[k].name@ && o2[k].target
                == p2[i].target && o2[k].mode == spec_effective_mode(list_ref, p2[i]);
        assert(p2.contains(p2[i2]));
        assert(p1.to_multiset().count(p2[i2]) > 0);
        assert(p1.contains(p2[i2]));
        let i3 = choose|i: int| 0 <= i < p1.len() && p1[i] == p2[i2];
        assert(p1[i3].name@ == o1[k].name@);
        if i1 != i3 {
            if i1 < i3 {
                assert(p1[i1].key() != p1[i3].key());
            } else {
                assert(p1[i3].key() != p1[i1].key());
            }
            assert(false);
        }
        assert(p1[i1] == p2[i2]);
    }
}

/// Some binding in the list binds the name `n` to the value `v`.
pub open spec fn bound_to<V>(out: Seq<Binding<V>>, n: Seq<u8>, v: V) -> bool {
    exists|k: int| 0 <= k < out.len() && (#[trigger] out[k]).name@ == n && out[k].value == v
}

/// Round trip: a record built from a construct list and then destructured
/// binds every field name to the very value it was built with.
pub proof fn lemma_round_trip<V>(
    fields: Seq<Carrier<V>>,
    rec: Record<V>,
    list_ref: bool,
    pats: Seq<DestructField>,
    out: Seq<Binding<V>>,
)
    requires
        rec.wf(),
        rec.slots_seq().to_multiset() == fields.to_multiset(),
        destructure_post(rec, list_ref, pats, out),
    ensures
        forall|i: int|
            0 <= i < fields.len() ==> bound_to(
                out,
                (#[trigger] fields[i]).spec_name(),
                fields[i].spec_value(),
            ),
{
    broadcast use vstd::multiset::group_multiset_axioms;
    broadcast use group_to_multiset_ensures;

    assert forall|i: int| 0 <= i < fields.len() implies bound_to(
        out,
        (#[trigger] fields[i]).spec_name(),
        fields[i].spec_value(),
    ) by {
        assert(fields.contains(fields[i]));
        assert(rec.slots_seq().to_multiset().count(fields[i]) > 0);
        assert(rec.slots_seq().contains(fields[i]));
        let k = choose|k: int| 0 <= k < rec.slots_seq().len() && rec.slots_seq()[k] == fields[i];
        assert(out[k].name@ == rec.names()[k]);
        assert(rec.names()[k] == rec.slots_seq()[k].spec_name());
        assert(out[k].value == rec.slots_seq()[k].spec_value());
        assert(0 <= k < out.len() && out[k].name@ == fields[i].spec_name() && out[k].value
            == fields[i].spec_value());
    }
}

/// Reference mode: a reference-mode extraction of a field (see
/// [`Record::field_ref`]) refers to the very value that by-value
/// destructuring of an equivalent record binds for the same field.
pub proof fn lemma_reference_mode<V>(
    rec1: Record<V>,
    rec2: Record<V>,
    list_ref: bool,
    pats: Seq<DestructField>,
    out: Seq<Binding<V>>,
    n: Seq<u8>,
)
    requires
        rec1.wf(),
        rec2.wf(),
        rec1.names() == rec2.names(),
        forall|m: Seq<u8>| rec1.contains_name(m) ==> rec1.value_of(m) == rec2.value_of(m),
        destructure_post(rec2, list_ref, pats, out),
        rec1.contains_name(n),
    ensures
        bound_to(out, n, rec1.value_of(n)),
{
    let i = choose|i: int|
        0 <= i < rec1.slots_seq().len() && #[trigger] rec1.slots_seq()[i].spec_name() == n;
    assert(rec1.names()[i] == n);
    assert(rec2.names()[i] == n);
    assert(out[i].name@ == n);
    assert(out[i].value == rec2.value_of(n));
    assert(rec1.value_of(n) == rec2.value_of(n));
}

/// Bridges a named call to a positional one: checks that a record supplies
/// exactly the declared parameter names, and hands the values out in the
/// canonical parameter order. A missing field, an extra field, or a
/// misspelled name is rejected at this boundary.
#[verifier::loop_isolation(false)]
pub fn adapt_call<V>(params: &Vec<Param>, rec: Record<V>) -> (r: Result<Vec<V>, EngineError>)
    requires
        sorted_strict_keys(params@),
        rec.wf(),
    ensures
        r is Ok <==> key_seq(params@) == rec.names(),
        params@.len() != rec.names().len() ==> r is Err,
        r matches Ok(vals) ==> {
            &&& vals@.len() == params@.len()
            &&& forall|k: int|
                0 <= k < vals@.len() ==> rec.contains_name(#[trigger] params@[k].name@) && vals@[k]
                    == rec.value_of(params@[k].name@)
        },
        r matches Err(e) ==> boundary_err(rec, key_seq(params@), e),
{
    let ghost ps = params@;
    let mut k: usize = 0;
    while k < params.len() && k < rec.slots.len()
        invariant
            k <= ps.len(),
            k <= rec.slots_seq().len(),
            forall|q: int| 0 <= q < k ==> (#[trigger] ps[q].name@) == rec.slots_seq()[q].spec_name(),
        decreases ps.len() - k,
    {
        if !name_eq(&params[k].name, &rec.slots[k].name) {
            proof {
                assert(key_seq(ps)[k as int] == ps[k as int].name@);
                assert(key_seq(ps).contains(ps[k as int].name@));
                assert(rec.names()[k as int] == rec.slots_seq()[k as int].spec_name());
                assert(rec.names().contains(rec.slots_seq()[k as int].spec_name()));
                assert(key_seq(ps) != rec.names());
            }
            let expected = name_clone(&params[k].name);
            let found = name_clone(&rec.slots[k].name);
            return Err(EngineError::NameMismatch { expected, found });
        }
        k += 1;
    }
    if k < params.len() {
        proof {
            let n = ps[k as int].name@;
            assert(key_seq(ps)[k as int] == n);
            assert(key_seq(ps).contains(n));
            assert(!rec.contains_name(n)) by {
                if rec.contains_name(n) {
                    let m = choose|m: int|
                        0 <= m < rec.slots_seq().len()
                            && #[trigger] rec.slots_seq()[m].spec_name() == n;
                    assert(m < k);
                    assert(ps[m].name@ == n);
                    assert(lex_lt(ps[m].key(), ps[k as int].key()));
                    lemma_lex_lt_asym(ps[m].key(), ps[k as int].key());
                }
            }
            assert(key_seq(ps).len() != rec.names().len());
        }
        let name = name_clone(&params[k].name);
        return Err(EngineError::MissingArgument { name });
    }
    if k < rec.slots.len() {
        proof {
            let n = rec.slots_seq()[k as int].spec_name();
            assert(rec.contains_name(n));
            assert(!key_seq(ps).contains(n)) by {
                if key_seq(ps).contains(n) {
                    let m = choose|m: int| 0 <= m < key_seq(ps).len() && key_seq(ps)[m] == n;
                    assert(ps[m].name@ == n);
                    assert(m < k);
                    assert(rec.slots_seq()[m].spec_name() == n);
                    assert(lex_lt(rec.slots_seq()[m].key(), rec.slots_seq()[k as int].key()));
                    lemma_lex_lt_asym(rec.slots_seq()[m].key(), rec.slots_seq()[k as int].key());
                }
            }
            assert(key_seq(ps).len() != rec.names().len());
        }
        let name = name_clone(&rec.slots[k].name);
        return Err(EngineError::ExtraArgument { name });
    }
    proof {
        assert(key_seq(ps) =~= rec.names());
    }
    let Record { slots: mut slots } = rec;
    let ghost slots0 = slots@;
    let mut vals: Vec<V> = Vec::new();
    while slots.len() > 0
        invariant
            vals@.len() + slots@.len() == slots0.len(),
            slots@ == slots0.skip(vals@.len() as int),
            forall|q: int|
                0 <= q < vals@.len() ==> (#[trigger] vals@[q]) == slots0[q].spec_value(),
        decreases slots@.len(),
    {
        let ghost kk = vals@.len() as int;
        proof {
            assert(slots@[0] == slots0[kk]);
        }
        let slot = slots.remove(0);
        vals.push(slot.take());
        proof {
            assert(slots@ =~= slots0.skip(kk + 1));
        }
    }
    proof {
        assert forall|q: int| 0 <= q < vals@.len() implies rec.contains_name(
            #[trigger] ps[q].name@,
        ) && vals@[q] == rec.value_of(ps[q].name@) by {
            rec.lemma_slot_value(q);
            assert(ps[q].name@ == rec.slots_seq()[q].spec_name());
        }
    }
    Ok(vals)
}

} // verus!

