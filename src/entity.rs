//! Entities: attached bundles, their field values, and the flat key/value
//! text they are read from and written to.

use vstd::prelude::*;
use crate::codec::Override;
use crate::schema::{
    copy_value, lemma_index_of, required_bundles, required_closure, BundleDef, BundleId, FieldDef, Registry,
};
use crate::value::{decode_value, decodes_as, encode_value, value_text, DecodeErrorKind, ScalarKind, Value};

verus! {

/// The field values of one bundle attached to an entity, in field order.
#[derive(Clone, Debug, PartialEq, Eq)]
pub struct BundleInstance {
    pub id: BundleId,
    pub values: Vec<Value>,
}

/// The bundles attached to an entity, in attachment order, and the keys of
/// its text that no attached bundle declares, kept verbatim.
#[derive(Clone, Debug, PartialEq, Eq)]
pub struct Entity {
    pub bundles: Vec<BundleInstance>,
    pub unknown: Vec<(String, String)>,
}

pub type BundlesModel = Seq<(BundleId, Seq<Value>)>;

pub type PairsModel = Seq<(Seq<char>, Seq<char>)>;

pub open spec fn pairs_model(p: Seq<(String, String)>) -> PairsModel {
    p.map_values(|x: (String, String)| (x.0@, x.1@))
}

pub open spec fn defaults_of(d: BundleDef) -> Seq<Value> {
    d.fields@.map_values(|f: crate::schema::FieldDef| f.default)
}

pub open spec fn carries(bs: BundlesModel, b: BundleId) -> bool {
    exists|i: int| 0 <= i < bs.len() && (#[trigger] bs[i]).0 == b
}

/// Attaches `b` with its defaults unless it is already there.
pub open spec fn attach_one(reg: Registry, bs: BundlesModel, b: BundleId) -> BundlesModel {
    if carries(bs, b) {
        bs
    } else {
        bs.push((b, defaults_of(reg.def_of(b))))
    }
}

pub open spec fn attach_all(reg: Registry, bs: BundlesModel, todo: Seq<BundleId>) -> BundlesModel
    decreases todo.len(),
{
    if todo.len() == 0 {
        bs
    } else {
        attach_one(reg, attach_all(reg, bs, todo.drop_last()), todo.last())
    }
}

/// A bundle is attached after the bundles it requires.
pub open spec fn attach_order(b: BundleId) -> Seq<BundleId> {
    required_closure(b).push(b)
}

/// The bundles of `bs` after attaching `b` and every bundle it requires.
pub open spec fn attach_model(reg: Registry, bs: BundlesModel, b: BundleId) -> BundlesModel {
    attach_all(reg, bs, attach_order(b))
}

/// The registry holds every bundle.
pub open spec fn complete(reg: Registry) -> bool {
    &&& reg.wf()
    &&& reg.has(BundleId::SolidEntity)
    &&& reg.has(BundleId::Worldspawn)
    &&& reg.has(BundleId::Light)
}

impl Entity {
    pub open spec fn bundles_model(&self) -> BundlesModel {
        self.bundles@.map_values(|b: BundleInstance| (b.id, b.values@))
    }

    pub open spec fn unknown_model(&self) -> PairsModel {
        pairs_model(self.unknown@)
    }

    /// An entity with no bundle and no key.
    pub fn new() -> (r: Entity)
        ensures
            r.bundles_model() == Seq::<(BundleId, Seq<Value>)>::empty(),
            r.unknown_model() == Seq::<(Seq<char>, Seq<char>)>::empty(),
    {
        let r = Entity { bundles: Vec::new(), unknown: Vec::new() };
        assert(r.bundles_model() =~= Seq::<(BundleId, Seq<Value>)>::empty());
        assert(r.unknown_model() =~= Seq::<(Seq<char>, Seq<char>)>::empty());
        r
    }

    /// Whether bundle `b` is attached.
    pub fn carries(&self, b: BundleId) -> (r: bool)
        ensures
            r == carries(self.bundles_model(), b),
    {
        let mut i: usize = 0;
        while i < self.bundles.len()
            invariant
                i <= self.bundles@.len(),
                forall|a: int| 0 <= a < i ==> (#[trigger] self.bundles@[a]).id != b,
            decreases self.bundles.len() - i,
        {
            if self.bundles[i].id == b {
                assert(self.bundles_model()[i as int].0 == b);
                return true;
            }
            i += 1;
        }
        assert forall|a: int| 0 <= a < self.bundles_model().len() implies (
        #[trigger] self.bundles_model()[a]).0 != b by {
            assert(self.bundles_model()[a].0 == self.bundles@[a].id);
        }
        false
    }

    /// Attaches bundle `b` and, before it, every bundle it requires; a bundle
    /// already attached keeps its values.
    pub fn attach(&mut self, reg: &Registry, b: BundleId)
        requires
            complete(*reg),
        ensures
            final(self).bundles_model() == attach_model(*reg, old(self).bundles_model(), b),
            final(self).unknown == old(self).unknown,
    {
        let mut order = required_bundles(b);
        order.push(b);
        assert(order@ == attach_order(b));
        let ghost start = self.bundles_model();
        let mut k: usize = 0;
        while k < order.len()
            invariant
                complete(*reg),
                k <= order@.len(),
                order@ == attach_order(b),
                self.unknown == old(self).unknown,
                start == old(self).bundles_model(),
                self.bundles_model() == attach_all(*reg, start, order@.take(k as int)),
            decreases order.len() - k,
        {
            let x = order[k];
            assert(order@.take(k + 1).drop_last() =~= order@.take(k as int));
            if !self.carries(x) {
                let ghost before = self.bundles_model();
                let values = default_values(reg, x);
                self.bundles.push(BundleInstance { id: x, values });
                assert(self.bundles_model() =~= before.push((x, defaults_of(reg.def_of(x)))));
            }
            k += 1;
        }
        assert(order@.take(order@.len() as int) =~= order@);
    }
}

/// Fresh default values for every field of a registered bundle.
pub fn default_values(reg: &Registry, b: BundleId) -> (r: Vec<Value>)
    requires
        reg.wf(),
        reg.has(b),
    ensures
        r@ == defaults_of(reg.def_of(b)),
{
    let pos = reg.position(b);
    let i = match pos {
        Some(i) => i,
        None => {
            return Vec::new();
        },
    };
    proof {
        lemma_index_of(*reg, b, i as int);
    }
    let def = &reg.defs[i];
    let mut r: Vec<Value> = Vec::new();
    let mut j: usize = 0;
    while j < def.fields.len()
        invariant
            j <= def.fields@.len(),
            r@ =~= defaults_of(*def).take(j as int),
        decreases def.fields.len() - j,
    {
        r.push(copy_value(&def.fields[j].default));
        j += 1;
    }
    r
}

proof fn lemma_attach_all_carries(reg: Registry, bs: BundlesModel, todo: Seq<BundleId>)
    ensures
        forall|x: BundleId| carries(bs, x) ==> #[trigger] carries(attach_all(reg, bs, todo), x),
        forall|i: int| 0 <= i < todo.len() ==> carries(attach_all(reg, bs, todo), #[trigger] todo[i]),
        attach_all(reg, bs, todo).len() >= bs.len(),
        forall|i: int| 0 <= i < bs.len() ==> #[trigger] attach_all(reg, bs, todo)[i] == bs[i],
    decreases todo.len(),
{
    if todo.len() > 0 {
        let mid = attach_all(reg, bs, todo.drop_last());
        lemma_attach_all_carries(reg, bs, todo.drop_last());
        let r = attach_one(reg, mid, todo.last());
        assert forall|x: BundleId| carries(mid, x) implies #[trigger] carries(r, x) by {
            let j = choose|j: int| 0 <= j < mid.len() && (#[trigger] mid[j]).0 == x;
            assert(r[j] == mid[j]);
        }
        if !carries(mid, todo.last()) {
            assert(r[mid.len() as int].0 == todo.last());
        }
        assert forall|i: int| 0 <= i < todo.len() implies carries(r, #[trigger] todo[i]) by {
            if i < todo.len() - 1 {
                assert(todo.drop_last()[i] == todo[i]);
            }
        }
    }
}

proof fn lemma_attach_all_noop(reg: Registry, bs: BundlesModel, todo: Seq<BundleId>)
    requires
        forall|i: int| 0 <= i < todo.len() ==> carries(bs, #[trigger] todo[i]),
    ensures
        attach_all(reg, bs, todo) == bs,
    decreases todo.len(),
{
    if todo.len() > 0 {
        assert forall|i: int| 0 <= i < todo.drop_last().len() implies carries(
            bs,
            #[trigger] todo.drop_last()[i],
        ) by {
            assert(todo.drop_last()[i] == todo[i]);
        }
        lemma_attach_all_noop(reg, bs, todo.drop_last());
        assert(carries(bs, todo[todo.len() - 1]));
    }
}

/// Attaching a bundle a second time changes nothing.
pub proof fn lemma_attach_idempotent(reg: Registry, bs: BundlesModel, b: BundleId)
    ensures
        attach_model(reg, attach_model(reg, bs, b), b) == attach_model(reg, bs, b),
{
    let once = attach_model(reg, bs, b);
    lemma_attach_all_carries(reg, bs, attach_order(b));
    lemma_attach_all_noop(reg, once, attach_order(b));
}

/// Attaching a bundle carries it and every bundle it requires, and keeps
/// every bundle that was already attached, values included.
pub proof fn lemma_attach_carries(reg: Registry, bs: BundlesModel, b: BundleId)
    ensures
        carries(attach_model(reg, bs, b), b),
        forall|x: BundleId| #[trigger] required_closure(b).contains(x) ==> carries(attach_model(reg, bs, b), x),
        forall|i: int| 0 <= i < bs.len() ==> #[trigger] attach_model(reg, bs, b)[i] == bs[i],
{
    lemma_attach_all_carries(reg, bs, attach_order(b));
    assert(attach_order(b)[attach_order(b).len() - 1] == b);
    assert forall|x: BundleId| #[trigger] required_closure(b).contains(x) implies carries(attach_model(reg, bs, b), x) by {
        let j = choose|j: int| 0 <= j < required_closure(b).len() && required_closure(b)[j] == x;
        assert(attach_order(b)[j] == x);
    }
}

/// A field whose text was not taken; the field keeps its default.
#[derive(Clone, Debug, PartialEq, Eq)]
pub struct FieldError {
    /// The field's key.
    pub field: String,
    /// The text that was refused.
    pub text: String,
    /// The type the field expects.
    pub expected: ScalarKind,
    pub kind: DecodeErrorKind,
}

/// The text of the last pair whose key is `k`.
pub open spec fn lookup(p: PairsModel, k: Seq<char>) -> Option<Seq<char>>
    decreases p.len(),
{
    if p.len() == 0 {
        None
    } else if p.last().0 == k {
        Some(p.last().1)
    } else {
        lookup(p.drop_last(), k)
    }
}

pub open spec fn decode_fails(k: ScalarKind, s: Seq<char>) -> bool {
    exists|e: DecodeErrorKind| decodes_as(k, s, Err(e))
}

/// `v` is what field `f` holds after reading the pairs `p`: its default when
/// the key is missing or its text is refused, else the value its text reads as.
pub open spec fn field_outcome(f: FieldDef, p: PairsModel, v: Value) -> bool {
    match lookup(p, f.name@) {
        None => v == f.default,
        Some(s) => decodes_as(f.kind, s, Ok(v)) || (v == f.default && decode_fails(f.kind, s)),
    }
}

pub open spec fn def_declares(d: BundleDef, k: Seq<char>) -> bool {
    exists|j: int| 0 <= j < d.fields@.len() && (#[trigger] d.fields@[j]).name@ == k
}

/// Some bundle of `bs` declares the key `k`.
pub open spec fn declares(reg: Registry, bs: BundlesModel, k: Seq<char>) -> bool {
    exists|i: int| 0 <= i < bs.len() && def_declares(reg.def_of(#[trigger] bs[i].0), k)
}

/// The pairs of `p` whose key no bundle of `bs` declares, in order.
pub open spec fn unknown_of(reg: Registry, bs: BundlesModel, p: PairsModel) -> PairsModel
    decreases p.len(),
{
    if p.len() == 0 {
        seq![]
    } else {
        let r = unknown_of(reg, bs, p.drop_last());
        if declares(reg, bs, p.last().0) {
            r
        } else {
            r.push(p.last())
        }
    }
}

/// The bundles of `bs` after attaching each of `ids` in turn.
pub open spec fn attach_each(reg: Registry, bs: BundlesModel, ids: Seq<BundleId>) -> BundlesModel
    decreases ids.len(),
{
    if ids.len() == 0 {
        bs
    } else {
        attach_model(reg, attach_each(reg, bs, ids.drop_last()), ids.last())
    }
}

/// Every attached bundle is registered and holds one value per field.
pub open spec fn shaped(reg: Registry, bs: BundlesModel) -> bool {
    forall|i: int|
        0 <= i < bs.len() ==> reg.has((#[trigger] bs[i]).0) && bs[i].1.len()
            == reg.def_of(bs[i].0).fields@.len()
}

proof fn lemma_attach_all_shaped(reg: Registry, bs: BundlesModel, todo: Seq<BundleId>)
    requires
        complete(reg),
        shaped(reg, bs),
    ensures
        shaped(reg, attach_all(reg, bs, todo)),
    decreases todo.len(),
{
    if todo.len() > 0 {
        lemma_attach_all_shaped(reg, bs, todo.drop_last());
        let x = todo.last();
        assert(reg.has(x)) by {
            match x {
                BundleId::SolidEntity => {},
                BundleId::Worldspawn => {},
                BundleId::Light => {},
            }
        }
    }
}

proof fn lemma_attach_each_shaped(reg: Registry, ids: Seq<BundleId>)
    requires
        complete(reg),
    ensures
        shaped(reg, attach_each(reg, Seq::empty(), ids)),
    decreases ids.len(),
{
    if ids.len() > 0 {
        lemma_attach_each_shaped(reg, ids.drop_last());
        lemma_attach_all_shaped(reg, attach_each(reg, Seq::empty(), ids.drop_last()), attach_order(ids.last()));
    }
}

/// The text of the last pair whose key is `key`.
pub fn lookup_text<'a>(pairs: &'a Vec<(String, String)>, key: &String) -> (r: Option<&'a String>)
    ensures
        match r {
            Some(t) => lookup(pairs_model(pairs@), key@) == Some(t@),
            None => lookup(pairs_model(pairs@), key@) is None,
        },
{
    let ghost p = pairs_model(pairs@);
    let mut i: usize = pairs.len();
    assert(p.take(i as int) =~= p);
    while i > 0
        invariant
            i <= pairs@.len(),
            p == pairs_model(pairs@),
            lookup(p, key@) == lookup(p.take(i as int), key@),
        decreases i,
    {
        assert(p.take(i as int).drop_last() =~= p.take(i - 1));
        if pairs[i - 1].0 == *key {
            return Some(&pairs[i - 1].1);
        }
        i -= 1;
    }
    None
}

/// `inst` holds what the fields of bundle `d` read from the pairs `p`.
pub open spec fn instance_read(d: BundleDef, p: PairsModel, inst: BundleInstance) -> bool {
    &&& inst.values@.len() == d.fields@.len()
    &&& forall|j: int| 0 <= j < d.fields@.len() ==> field_outcome(d.fields@[j], p, #[trigger] inst.values@[j])
}

/// The error kind of a refused text.
pub open spec fn error_kind(k: ScalarKind, s: Seq<char>) -> DecodeErrorKind {
    choose|e: DecodeErrorKind| decodes_as(k, s, Err(e))
}

/// A reported error as its field key, refused text, expected kind and kind.
pub type ErrorModel = (Seq<char>, Seq<char>, ScalarKind, DecodeErrorKind);

pub open spec fn errors_model(errs: Seq<FieldError>) -> Seq<ErrorModel> {
    errs.map_values(|e: FieldError| (e.field@, e.text@, e.expected, e.kind))
}

/// The errors of the first `n` fields of `fs` read from `p`: one for each
/// field whose text is refused, in field order.
pub open spec fn field_errors(fs: Seq<FieldDef>, p: PairsModel, n: nat) -> Seq<ErrorModel>
    decreases n,
{
    if n == 0 {
        seq![]
    } else {
        let r = field_errors(fs, p, (n - 1) as nat);
        let f = fs[n - 1];
        match lookup(p, f.name@) {
            Some(s) => if decode_fails(f.kind, s) {
                r.push((f.name@, s, f.kind, error_kind(f.kind, s)))
            } else {
                r
            },
            None => r,
        }
    }
}

/// The errors of reading the bundles `bs` from `p`, in bundle and field order.
pub open spec fn bundles_errors(reg: Registry, bs: BundlesModel, p: PairsModel) -> Seq<ErrorModel>
    decreases bs.len(),
{
    if bs.len() == 0 {
        seq![]
    } else {
        let fs = reg.def_of(bs.last().0).fields@;
        bundles_errors(reg, bs.drop_last(), p) + field_errors(fs, p, fs.len())
    }
}

/// Reads the fields of bundle `d` from the pairs, appending an error for each
/// field whose text is refused.
pub fn decode_fields(d: &BundleDef, pairs: &Vec<(String, String)>, errs: &mut Vec<FieldError>) -> (r: Vec<Value>)
    ensures
        instance_read(*d, pairs_model(pairs@), BundleInstance { id: d.id, values: r }),
        errors_model(final(errs)@) == errors_model(old(errs)@) + field_errors(
            d.fields@,
            pairs_model(pairs@),
            d.fields@.len(),
        ),
{
    let ghost p = pairs_model(pairs@);
    let mut r: Vec<Value> = Vec::new();
    let mut j: usize = 0;
    while j < d.fields.len()
        invariant
            p == pairs_model(pairs@),
            j <= d.fields@.len(),
            r@.len() == j,
            forall|a: int| 0 <= a < j ==> field_outcome(d.fields@[a], p, #[trigger] r@[a]),
            errors_model(errs@) == errors_model(old(errs)@) + field_errors(d.fields@, p, j as nat),
        decreases d.fields.len() - j,
    {
        let f = &d.fields[j];
        let ghost before = errs@;
        match lookup_text(pairs, &f.name) {
            None => {
                r.push(copy_value(&f.default));
            },
            Some(t) => {
                match decode_value(f.kind, t.as_str()) {
                    Ok(v) => {
                        r.push(v);
                        assert(!decode_fails(f.kind, t@));
                    },
                    Err(kind) => {
                        r.push(copy_value(&f.default));
                        assert(decode_fails(f.kind, t@));
                        assert(error_kind(f.kind, t@) == kind);
                        let err = FieldError { field: f.name.clone(), text: t.clone(), expected: f.kind, kind };
                        errs.push(err);
                        assert(errors_model(errs@) =~= errors_model(before).push((f.name@, t@, f.kind, kind)));
                    },
                }
            },
        }
        j += 1;
    }
    r
}

/// Whether bundle `d` declares the key `key`.
pub fn def_has_key(d: &BundleDef, key: &String) -> (r: bool)
    ensures
        r == def_declares(*d, key@),
{
    let mut j: usize = 0;
    while j < d.fields.len()
        invariant
            j <= d.fields@.len(),
            forall|b: int| 0 <= b < j ==> (#[trigger] d.fields@[b]).name@ != key@,
        decreases d.fields.len() - j,
    {
        if d.fields[j].name == *key {
            return true;
        }
        j += 1;
    }
    false
}

/// Whether some attached bundle declares the key `key`.
pub fn entity_declares(reg: &Registry, e: &Entity, key: &String) -> (r: bool)
    requires
        reg.wf(),
        shaped(*reg, e.bundles_model()),
    ensures
        r == declares(*reg, e.bundles_model(), key@),
{
    let ghost bs = e.bundles_model();
    let mut i: usize = 0;
    while i < e.bundles.len()
        invariant
            reg.wf(),
            bs == e.bundles_model(),
            shaped(*reg, bs),
            i <= bs.len(),
            forall|a: int| 0 <= a < i ==> !def_declares(reg.def_of(#[trigger] bs[a].0), key@),
        decreases e.bundles.len() - i,
    {
        assert(bs[i as int].0 == e.bundles@[i as int].id);
        let q = match reg.position(e.bundles[i].id) {
            Some(q) => q,
            None => {
                return false;
            },
        };
        proof {
            lemma_index_of(*reg, bs[i as int].0, q as int);
        }
        if def_has_key(&reg.defs[q], key) {
            return true;
        }
        i += 1;
    }
    false
}

/// The pairs whose key no bundle of `e` declares, in order.
pub fn collect_unknown(reg: &Registry, e: &Entity, pairs: &Vec<(String, String)>) -> (r: Vec<(String, String)>)
    requires
        reg.wf(),
        shaped(*reg, e.bundles_model()),
    ensures
        pairs_model(r@) == unknown_of(*reg, e.bundles_model(), pairs_model(pairs@)),
{
    let ghost p = pairs_model(pairs@);
    let ghost base = e.bundles_model();
    let mut unknown: Vec<(String, String)> = Vec::new();
    let mut t: usize = 0;
    while t < pairs.len()
        invariant
            reg.wf(),
            p == pairs_model(pairs@),
            base == e.bundles_model(),
            shaped(*reg, base),
            t <= pairs@.len(),
            pairs_model(unknown@) == unknown_of(*reg, base, p.take(t as int)),
        decreases pairs.len() - t,
    {
        assert(p.take(t + 1).drop_last() =~= p.take(t as int));
        assert(p.take(t + 1).last() == p[t as int]);
        let ghost before = unknown@;
        if !entity_declares(reg, e, &pairs[t].0) {
            unknown.push((pairs[t].0.clone(), pairs[t].1.clone()));
            assert(pairs_model(unknown@) =~= pairs_model(before).push(p[t as int]));
        }
        t += 1;
    }
    assert(p.take(pairs@.len() as int) =~= p);
    unknown
}

/// What reading the pairs `p` gives for entity bundles `bs`: `out` holds each
/// bundle's fields as read, and `errs` reports each refused text once, in
/// bundle and field order.
pub open spec fn bundles_read(reg: Registry, bs: BundlesModel, p: PairsModel, out: Seq<BundleInstance>, errs: Seq<FieldError>) -> bool {
    &&& out.len() == bs.len()
    &&& forall|a: int| 0 <= a < bs.len() ==> (#[trigger] out[a]).id == bs[a].0
        && instance_read(reg.def_of(bs[a].0), p, out[a])
    &&& errors_model(errs) == bundles_errors(reg, bs, p)
}

/// Reads the fields of every bundle of `e` from the pairs.
pub fn decode_bundles(reg: &Registry, e: &Entity, pairs: &Vec<(String, String)>) -> (r: (Vec<BundleInstance>, Vec<FieldError>))
    requires
        reg.wf(),
        shaped(*reg, e.bundles_model()),
    ensures
        bundles_read(*reg, e.bundles_model(), pairs_model(pairs@), r.0@, r.1@),
{
    let ghost p = pairs_model(pairs@);
    let ghost base = e.bundles_model();
    let mut errs: Vec<FieldError> = Vec::new();
    let mut out: Vec<BundleInstance> = Vec::new();
    let mut i: usize = 0;
    assert(errors_model(errs@) =~= bundles_errors(*reg, base.take(0), p));
    while i < e.bundles.len()
        invariant
            reg.wf(),
            p == pairs_model(pairs@),
            base == e.bundles_model(),
            shaped(*reg, base),
            i <= base.len(),
            out@.len() == i,
            forall|a: int| 0 <= a < i ==> (#[trigger] out@[a]).id == base[a].0
                && instance_read(reg.def_of(base[a].0), p, out@[a]),
            errors_model(errs@) == bundles_errors(*reg, base.take(i as int), p),
        decreases e.bundles.len() - i,
    {
        let id = e.bundles[i].id;
        assert(base[i as int].0 == id);
        let q = match reg.position(id) {
            Some(q) => q,
            None => {
                assert(false);
                return (out, errs);
            },
        };
        proof {
            lemma_index_of(*reg, id, q as int);
        }
        let values = decode_fields(&reg.defs[q], pairs, &mut errs);
        assert(base.take(i + 1).drop_last() =~= base.take(i as int));
        assert(base.take(i + 1).last() == base[i as int]);
        let ghost outb = out@;
        out.push(BundleInstance { id, values });
        assert forall|a: int| 0 <= a < i + 1 implies (#[trigger] out@[a]).id == base[a].0
                && instance_read(reg.def_of(base[a].0), p, out@[a]) by {
            if a < i {
                assert(out@[a] == outb[a]);
            }
        }
        i += 1;
    }
    assert(base.take(base.len() as int) =~= base);
    (out, errs)
}

/// Reads an entity that carries the bundles `ids`, each with the bundles it
/// requires, from flat key/value pairs.
///
/// Each field takes the value its key's text reads as; a missing key, or a
/// refused text, leaves the field at its default, and each refused text is
/// reported without stopping the other fields. Pairs whose key no attached
/// bundle declares are kept verbatim, in order. A key given twice takes its
/// last text.
pub fn decode_entity(reg: &Registry, pairs: &Vec<(String, String)>, ids: &Vec<BundleId>) -> (r: (Entity, Vec<FieldError>))
    requires
        complete(*reg),
    ensures
        bundles_read(*reg, attach_each(*reg, Seq::empty(), ids@), pairs_model(pairs@), r.0.bundles@, r.1@),
        r.0.unknown_model() == unknown_of(*reg, attach_each(*reg, Seq::empty(), ids@), pairs_model(pairs@)),
{
    let mut e = Entity::new();
    let mut k: usize = 0;
    while k < ids.len()
        invariant
            complete(*reg),
            k <= ids@.len(),
            e.bundles_model() == attach_each(*reg, Seq::empty(), ids@.take(k as int)),
        decreases ids.len() - k,
    {
        assert(ids@.take(k + 1).drop_last() =~= ids@.take(k as int));
        e.attach(reg, ids[k]);
        k += 1;
    }
    assert(ids@.take(ids@.len() as int) =~= ids@);
    proof {
        lemma_attach_each_shaped(*reg, ids@);
    }
    let (out, errs) = decode_bundles(reg, &e, pairs);
    let unknown = collect_unknown(reg, &e, pairs);
    (Entity { bundles: out, unknown }, errs)
}

/// A value is written unless it is absent or an unset override.
pub open spec fn emitted(v: Value) -> bool {
    !(v is Absent) && v != Value::Override(Override::Unset)
}

/// The pairs written for the first `vals.len()` fields of `fs`.
pub open spec fn fields_pairs(fs: Seq<FieldDef>, vals: Seq<Value>) -> PairsModel
    decreases vals.len(),
{
    if vals.len() == 0 {
        seq![]
    } else {
        let r = fields_pairs(fs, vals.drop_last());
        let j = vals.len() - 1;
        if emitted(vals[j]) {
            r.push((fs[j].name@, value_text(vals[j])))
        } else {
            r
        }
    }
}

/// The pairs written for the bundles `bs`, in bundle and then field order.
pub open spec fn bundles_pairs(reg: Registry, bs: BundlesModel) -> PairsModel
    decreases bs.len(),
{
    if bs.len() == 0 {
        seq![]
    } else {
        bundles_pairs(reg, bs.drop_last()) + fields_pairs(reg.def_of(bs.last().0).fields@, bs.last().1)
    }
}

/// The flat pairs written for an entity: its fields, then its unknown keys.
pub open spec fn encoded(reg: Registry, e: Entity) -> PairsModel {
    bundles_pairs(reg, e.bundles_model()) + e.unknown_model()
}

fn is_emitted(v: &Value) -> (r: bool)
    ensures
        r == emitted(*v),
{
    match v {
        Value::Absent => false,
        Value::Override(Override::Unset) => false,
        _ => true,
    }
}

fn push_fields(out: &mut Vec<(String, String)>, d: &BundleDef, vals: &Vec<Value>)
    requires
        vals@.len() == d.fields@.len(),
    ensures
        pairs_model(final(out)@) == pairs_model(old(out)@) + fields_pairs(d.fields@, vals@),
{
    let mut j: usize = 0;
    while j < vals.len()
        invariant
            vals@.len() == d.fields@.len(),
            j <= vals@.len(),
            pairs_model(out@) == pairs_model(old(out)@) + fields_pairs(d.fields@, vals@.take(j as int)),
        decreases vals.len() - j,
    {
        assert(vals@.take(j + 1).drop_last() =~= vals@.take(j as int));
        assert(vals@.take(j + 1)[j as int] == vals@[j as int]);
        let ghost before = out@;
        if is_emitted(&vals[j]) {
            out.push((d.fields[j].name.clone(), encode_value(&vals[j])));
            assert(pairs_model(out@) =~= pairs_model(before).push((d.fields@[j as int].name@, value_text(vals@[j as int]))));
        }
        j += 1;
    }
    assert(vals@.take(vals@.len() as int) =~= vals@);
}

/// Writes an entity as flat key/value pairs: each field of each bundle in
/// order, leaving out absent optional fields and unset overrides, and then
/// the unknown keys as they were read.
pub fn encode_entity(reg: &Registry, e: &Entity) -> (r: Vec<(String, String)>)
    requires
        reg.wf(),
        shaped(*reg, e.bundles_model()),
    ensures
        pairs_model(r@) == encoded(*reg, *e),
{
    let ghost bs = e.bundles_model();
    let mut out: Vec<(String, String)> = Vec::new();
    let mut i: usize = 0;
    while i < e.bundles.len()
        invariant
            reg.wf(),
            bs == e.bundles_model(),
            shaped(*reg, bs),
            i <= bs.len(),
            pairs_model(out@) == bundles_pairs(*reg, bs.take(i as int)),
        decreases e.bundles.len() - i,
    {
        assert(bs.take(i + 1).drop_last() =~= bs.take(i as int));
        assert(bs.take(i + 1).last() == bs[i as int]);
        assert(bs[i as int].0 == e.bundles@[i as int].id);
        assert(bs[i as int].1 == e.bundles@[i as int].values@);
        let q = match reg.position(e.bundles[i].id) {
            Some(q) => q,
            None => {
                assert(false);
                return out;
            },
        };
        proof {
            lemma_index_of(*reg, bs[i as int].0, q as int);
        }
        push_fields(&mut out, &reg.defs[q], &e.bundles[i].values);
        i += 1;
    }
    assert(bs.take(bs.len() as int) =~= bs);
    let ghost fields_part = out@;
    let mut t: usize = 0;
    while t < e.unknown.len()
        invariant
            t <= e.unknown@.len(),
            pairs_model(fields_part) == bundles_pairs(*reg, bs),
            pairs_model(out@) == pairs_model(fields_part) + e.unknown_model().take(t as int),
        decreases e.unknown.len() - t,
    {
        let ghost before = out@;
        out.push((e.unknown[t].0.clone(), e.unknown[t].1.clone()));
        assert(pairs_model(out@) =~= pairs_model(before).push(e.unknown_model()[t as int]));
        assert(e.unknown_model().take(t + 1) =~= e.unknown_model().take(t as int).push(e.unknown_model()[t as int]));
        t += 1;
    }
    assert(e.unknown_model().take(e.unknown@.len() as int) =~= e.unknown_model());
    out
}

proof fn lemma_unknown_of_keeps(reg: Registry, bs: BundlesModel, p: PairsModel, i: int)
    requires
        0 <= i < p.len(),
        !declares(reg, bs, p[i].0),
    ensures
        unknown_of(reg, bs, p).contains(p[i]),
    decreases p.len(),
{
    let r = unknown_of(reg, bs, p.drop_last());
    if i == p.len() - 1 {
        assert(unknown_of(reg, bs, p)[r.len() as int] == p[i]);
    } else {
        assert(p.drop_last()[i] == p[i]);
        lemma_unknown_of_keeps(reg, bs, p.drop_last(), i);
        let k = choose|k: int| 0 <= k < r.len() && r[k] == p[i];
        assert(unknown_of(reg, bs, p)[k] == p[i]);
    }
}

/// A pair whose key no attached bundle declares survives reading and writing
/// unchanged: if `e` was read from `p` for bundles `bs`, writing `e` gives
/// back that pair.
pub proof fn lemma_unknown_key_round_trip(reg: Registry, bs: BundlesModel, p: PairsModel, i: int, e: Entity)
    requires
        0 <= i < p.len(),
        !declares(reg, bs, p[i].0),
        e.unknown_model() == unknown_of(reg, bs, p),
    ensures
        encoded(reg, e).contains(p[i]),
{
    lemma_unknown_of_keeps(reg, bs, p, i);
    let k = choose|k: int| 0 <= k < e.unknown_model().len() && e.unknown_model()[k] == p[i];
    let f = bundles_pairs(reg, e.bundles_model());
    assert(encoded(reg, e)[f.len() + k] == p[i]);
}

/// The pairs written for field `f` holding its default.
pub open spec fn default_pairs(f: FieldDef) -> PairsModel {
    if emitted(f.default) {
        seq![(f.name@, value_text(f.default))]
    } else {
        seq![]
    }
}

/// Every declared default survives writing and reading back: a default that
/// is written reads back as itself, and one that is left out is restored as
/// the default of the missing key.
pub proof fn lemma_declared_default_round_trip(reg: Registry, i: int, j: int)
    requires
        reg.wf(),
        0 <= i < reg.defs@.len(),
        0 <= j < reg.defs@[i].fields@.len(),
    ensures
        field_outcome(reg.defs@[i].fields@[j], default_pairs(reg.defs@[i].fields@[j]), reg.defs@[i].fields@[j].default),
{
    let f = reg.defs@[i].fields@[j];
    assert(crate::schema::bundle_wf(reg.defs@[i]));
    assert(crate::schema::field_wf(f));
    let p = default_pairs(f);
    if emitted(f.default) {
        crate::value::lemma_value_round_trip(f.kind, f.default);
        assert(p.drop_last() =~= Seq::<(Seq<char>, Seq<char>)>::empty());
        assert(lookup(p, f.name@) == Some(value_text(f.default)));
    }
}

/// Attaching a bundle that requires another to an entity with neither
/// yields both, the required one first, each holding its defaults.
pub proof fn lemma_attach_brings_requirement(reg: Registry)
    ensures
        attach_model(reg, Seq::empty(), BundleId::Worldspawn) == seq![
            (BundleId::SolidEntity, defaults_of(reg.def_of(BundleId::SolidEntity))),
            (BundleId::Worldspawn, defaults_of(reg.def_of(BundleId::Worldspawn))),
        ],
{
    let order = attach_order(BundleId::Worldspawn);
    assert(order =~= seq![BundleId::SolidEntity, BundleId::Worldspawn]);
    assert(order.drop_last() =~= seq![BundleId::SolidEntity]);
    assert(order.drop_last().drop_last() =~= Seq::<BundleId>::empty());
    let empty = Seq::<(BundleId, Seq<Value>)>::empty();
    assert(attach_all(reg, empty, order.drop_last().drop_last()) == empty);
    assert(order.drop_last().last() == BundleId::SolidEntity);
    assert(!carries(empty, BundleId::SolidEntity));
    let one = attach_all(reg, empty, order.drop_last());
    assert(one =~= seq![(BundleId::SolidEntity, defaults_of(reg.def_of(BundleId::SolidEntity)))]);
    assert(!carries(one, BundleId::Worldspawn));
    assert(order.last() == BundleId::Worldspawn);
    assert(attach_all(reg, empty, order) =~= seq![
        (BundleId::SolidEntity, defaults_of(reg.def_of(BundleId::SolidEntity))),
        (BundleId::Worldspawn, defaults_of(reg.def_of(BundleId::Worldspawn))),
    ]);
}

} // verus!
