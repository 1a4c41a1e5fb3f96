//! Property bundles, their requirements, and the registry that catalogs them.

use vstd::prelude::*;
use crate::codec::color_round_trips;
use crate::value::{encodable, fits, ScalarKind, Value};

verus! {

/// The bundles that the registry knows, in declaration order.
#[derive(Clone, Copy, Debug, PartialEq, Eq, Structural)]
pub enum BundleId {
    /// Properties of any entity with a brush model.
    SolidEntity,
    /// Properties of the `worldspawn` entity.
    Worldspawn,
    /// Properties of light entities.
    Light,
}

/// One field of a bundle: its key, type, default and documentation.
#[derive(Clone, Debug, PartialEq, Eq)]
pub struct FieldDef {
    pub name: String,
    pub kind: ScalarKind,
    /// The value a new bundle starts with; [`Value::Absent`] marks an optional field.
    pub default: Value,
    pub doc: String,
}

/// A named, ordered list of fields.
#[derive(Clone, Debug, PartialEq, Eq)]
pub struct BundleDef {
    pub id: BundleId,
    pub name: String,
    pub fields: Vec<FieldDef>,
}

/// A mistake in a bundle definition, found when the bundle is registered.
#[derive(Clone, Copy, Debug, PartialEq, Eq, Structural)]
pub enum SchemaError {
    /// Two fields of one bundle share a key.
    DuplicateField,
    /// A default is not a value of its field's type, or does not survive its
    /// own text round trip.
    InvalidDefault,
}

pub open spec fn field_wf(f: FieldDef) -> bool {
    fits(f.kind, f.default) && encodable(f.default)
}

/// Every default fits its field and round-trips; keys are unique.
pub open spec fn bundle_wf(d: BundleDef) -> bool {
    &&& forall|i: int| 0 <= i < d.fields@.len() ==> field_wf(#[trigger] d.fields@[i])
    &&& forall|i: int, j: int|
        0 <= i < d.fields@.len() && 0 <= j < d.fields@.len() && i != j ==> (#[trigger] d.fields@[i]).name@
            != (#[trigger] d.fields@[j]).name@
}

/// The bundles that `b` requires directly.
pub open spec fn direct_requirements(b: BundleId) -> Seq<BundleId> {
    match b {
        BundleId::Worldspawn => seq![BundleId::SolidEntity],
        _ => seq![],
    }
}

/// All bundles that `b` requires, directly or through other bundles.
pub open spec fn required_closure(b: BundleId) -> Seq<BundleId> {
    direct_requirements(b)
}

/// The requirement closure holds every direct requirement and is closed under
/// requirement, and no bundle requires itself.
pub proof fn lemma_requirements_closed(b: BundleId)
    ensures
        forall|x: BundleId| #[trigger] direct_requirements(b).contains(x) ==> required_closure(
            b,
        ).contains(x),
        forall|x: BundleId, y: BundleId|
            required_closure(b).contains(x) && #[trigger] direct_requirements(x).contains(y)
                ==> #[trigger] required_closure(b).contains(y),
        !required_closure(b).contains(b),
{
    if b == BundleId::Worldspawn {
        assert(required_closure(b)[0] == BundleId::SolidEntity);
        assert forall|x: BundleId| required_closure(b).contains(x) implies x == BundleId::SolidEntity by {
        }
        assert(direct_requirements(BundleId::SolidEntity) =~= Seq::<BundleId>::empty());
    }
}

/// The bundles that `b` requires, directly or transitively.
pub fn required_bundles(b: BundleId) -> (r: Vec<BundleId>)
    ensures
        r@ == required_closure(b),
{
    let mut r: Vec<BundleId> = Vec::new();
    if let BundleId::Worldspawn = b {
        r.push(BundleId::SolidEntity);
    }
    assert(r@ =~= required_closure(b));
    r
}

/// A copy of a value.
pub fn copy_value(v: &Value) -> (r: Value)
    ensures
        r == *v,
{
    match v {
        Value::Absent => Value::Absent,
        Value::Flag(b) => Value::Flag(*b),
        Value::Override(o) => Value::Override(*o),
        Value::Number(d) => Value::Number(*d),
        Value::Count(n) => Value::Count(*n),
        Value::Text(t) => Value::Text(t.clone()),
        Value::Angles(a) => Value::Angles(*a),
        Value::Color(c) => Value::Color(*c),
        Value::Dirt(m) => Value::Dirt(*m),
        Value::Attenuation(a) => Value::Attenuation(*a),
    }
}

/// Whether `v` fits a field of kind `k` and survives its text round trip.
pub fn check_default(k: ScalarKind, v: &Value) -> (r: bool)
    ensures
        r == (fits(k, *v) && encodable(*v)),
{
    match v {
        Value::Absent => true,
        Value::Flag(_) => k == ScalarKind::Flag,
        Value::Override(_) => k == ScalarKind::Override,
        Value::Number(_) => k == ScalarKind::Number,
        Value::Count(_) => k == ScalarKind::Count,
        Value::Text(_) => k == ScalarKind::Text,
        Value::Angles(_) => k == ScalarKind::Angles,
        Value::Color(c) => k == ScalarKind::Color && color_round_trips(c),
        Value::Dirt(_) => k == ScalarKind::Dirt,
        Value::Attenuation(_) => k == ScalarKind::Attenuation,
    }
}

/// Checks a bundle definition: every default fits and round-trips, and no
/// two fields share a key.
pub fn validate_bundle(d: &BundleDef) -> (r: Result<(), SchemaError>)
    ensures
        r is Ok <==> bundle_wf(*d),
{
    let n = d.fields.len();
    let mut i: usize = 0;
    while i < n
        invariant
            n == d.fields@.len(),
            i <= n,
            forall|a: int| 0 <= a < i ==> field_wf(#[trigger] d.fields@[a]),
            forall|a: int, b: int|
                0 <= a < i && 0 <= b < n && a != b ==> (#[trigger] d.fields@[a]).name@
                    != (#[trigger] d.fields@[b]).name@,
        decreases n - i,
    {
        if !check_default(d.fields[i].kind, &d.fields[i].default) {
            return Err(SchemaError::InvalidDefault);
        }
        let mut j: usize = 0;
        while j < n
            invariant
                n == d.fields@.len(),
                i < n,
                j <= n,
                forall|b: int| 0 <= b < j && b != i ==> d.fields@[i as int].name@ != (#[trigger] d.fields@[b]).name@,
            decreases n - j,
        {
            if j != i && d.fields[i].name == d.fields[j].name {
                return Err(SchemaError::DuplicateField);
            }
            j += 1;
        }
        i += 1;
    }
    Ok(())
}

/// The catalog of registered bundles, in registration order.
#[derive(Clone, Debug, PartialEq, Eq)]
pub struct Registry {
    pub defs: Vec<BundleDef>,
}

impl Registry {
    /// Every registered bundle is well formed and registered once.
    pub open spec fn wf(&self) -> bool {
        &&& forall|i: int| 0 <= i < self.defs@.len() ==> bundle_wf(#[trigger] self.defs@[i])
        &&& forall|i: int, j: int|
            0 <= i < self.defs@.len() && 0 <= j < self.defs@.len() && i != j ==> (#[trigger] self.defs@[i]).id
                != (#[trigger] self.defs@[j]).id
    }

    pub open spec fn ids(&self) -> Seq<BundleId> {
        self.defs@.map_values(|d: BundleDef| d.id)
    }

    pub open spec fn has(&self, b: BundleId) -> bool {
        self.ids().contains(b)
    }

    /// The position of bundle `b`, which must be registered.
    pub open spec fn index_of(&self, b: BundleId) -> int {
        choose|i: int| 0 <= i < self.defs@.len() && self.defs@[i].id == b
    }

    /// The definition of a registered bundle.
    pub open spec fn def_of(&self, b: BundleId) -> BundleDef {
        self.defs@[self.index_of(b)]
    }

    /// An empty registry.
    pub fn new() -> (r: Registry)
        ensures
            r.wf(),
            r.defs@.len() == 0,
    {
        Registry { defs: Vec::new() }
    }

    /// Where bundle `b` stands, if it is registered.
    pub fn position(&self, b: BundleId) -> (r: Option<usize>)
        ensures
            match r {
                Some(i) => i < self.defs@.len() && self.defs@[i as int].id == b,
                None => !self.has(b),
            },
    {
        let mut i: usize = 0;
        while i < self.defs.len()
            invariant
                i <= self.defs@.len(),
                forall|a: int| 0 <= a < i ==> (#[trigger] self.defs@[a]).id != b,
            decreases self.defs.len() - i,
        {
            if self.defs[i].id == b {
                return Some(i);
            }
            i += 1;
        }
        proof {
            if self.has(b) {
                let k = self.ids().index_of(b);
                assert(self.defs@[k].id == b);
            }
        }
        None
    }

    /// The definition of bundle `b`, if it is registered.
    pub fn definition(&self, b: BundleId) -> (r: Option<&BundleDef>)
        requires
            self.wf(),
        ensures
            match r {
                Some(d) => self.has(b) && *d == self.def_of(b),
                None => !self.has(b),
            },
    {
        match self.position(b) {
            Some(i) => {
                proof {
                    let k = self.index_of(b);
                    assert(self.ids()[i as int] == b);
                    assert(0 <= k < self.defs@.len() && self.defs@[k].id == b);
                }
                Some(&self.defs[i])
            },
            None => None,
        }
    }

    /// Registers a bundle once: a bundle already registered is left as it is,
    /// and a malformed definition is refused.
    pub fn register(&mut self, d: BundleDef) -> (r: Result<(), SchemaError>)
        requires
            old(self).wf(),
        ensures
            final(self).wf(),
            r is Err <==> !bundle_wf(d),
            (r is Err || old(self).has(d.id)) ==> *final(self) == *old(self),
            (r is Ok && !old(self).has(d.id)) ==> final(self).defs@ == old(self).defs@.push(d),
            r is Ok ==> final(self).has(d.id),
            forall|b: BundleId| old(self).has(b) ==> #[trigger] final(self).has(b),
            (r is Ok && !old(self).has(d.id)) ==> final(self).def_of(d.id) == d,
            forall|b: BundleId| old(self).has(b) ==> #[trigger] final(self).def_of(b) == old(self).def_of(b),
            forall|b: BundleId| #[trigger] final(self).has(b) ==> old(self).has(b) || b == d.id,
    {
        match validate_bundle(&d) {
            Err(e) => Err(e),
            Ok(()) => {
                match self.position(d.id) {
                    Some(k) => {
                        assert(self.ids()[k as int] == d.id);
                    },
                    None => {
                        let ghost dd = d;
                        self.defs.push(d);
                        assert(self.defs@ == old(self).defs@.push(dd));
                        assert(self.ids() =~= old(self).ids().push(dd.id));
                        assert(self.ids()[self.ids().len() - 1] == dd.id);
                        assert forall|b: BundleId| old(self).has(b) implies #[trigger] self.has(b) by {
                            let k = old(self).ids().index_of(b);
                            assert(self.ids()[k] == b);
                        }
                        proof {
                            assert forall|i: int| 0 <= i < old(self).defs@.len() implies (#[trigger] old(self).defs@[i]).id != dd.id by {
                                if old(self).defs@[i].id == dd.id {
                                    assert(old(self).ids()[i] == dd.id);
                                }
                            }
                            assert(self.wf());
                            assert forall|b: BundleId| #[trigger] self.has(b) implies old(self).has(b) || b == dd.id by {
                                let k = self.ids().index_of(b);
                                if k < old(self).defs@.len() {
                                    assert(old(self).ids()[k] == b);
                                }
                            }
                            lemma_index_of(*self, dd.id, old(self).defs@.len() as int);
                            assert forall|b: BundleId| old(self).has(b) implies #[trigger] self.def_of(b) == old(self).def_of(b) by {
                                let k = old(self).ids().index_of(b);
                                assert(old(self).defs@[k].id == b);
                                lemma_index_of(*old(self), b, k);
                                lemma_index_of(*self, b, k);
                            }
                        }
                    },
                }
                Ok(())
            },
        }
    }

    /// The registered bundle identifiers, in registration order.
    pub fn all_ids(&self) -> (r: Vec<BundleId>)
        ensures
            r@ == self.ids(),
    {
        let mut r: Vec<BundleId> = Vec::new();
        let mut i: usize = 0;
        while i < self.defs.len()
            invariant
                i <= self.defs@.len(),
                r@ =~= self.ids().take(i as int),
            decreases self.defs.len() - i,
        {
            r.push(self.defs[i].id);
            i += 1;
        }
        r
    }

    /// The registered bundle with the given name.
    pub fn lookup(&self, name: &str) -> (r: Option<&BundleDef>)
        ensures
            match r {
                Some(d) => self.defs@.contains(*d) && d.name@ == name@,
                None => forall|i: int| 0 <= i < self.defs@.len() ==> (#[trigger] self.defs@[i]).name@ != name@,
            },
    {
        let wanted = name.to_owned();
        let mut i: usize = 0;
        while i < self.defs.len()
            invariant
                i <= self.defs@.len(),
                wanted@ == name@,
                forall|a: int| 0 <= a < i ==> (#[trigger] self.defs@[a]).name@ != name@,
            decreases self.defs.len() - i,
        {
            if self.defs[i].name == wanted {
                assert(self.defs@.contains(self.defs@[i as int]));
                return Some(&self.defs[i]);
            }
            i += 1;
        }
        None
    }
}


/// The position the registry's definition of `b` stands at is the only one.
pub proof fn lemma_index_of(reg: Registry, b: BundleId, i: int)
    requires
        reg.wf(),
        0 <= i < reg.defs@.len(),
        reg.defs@[i].id == b,
    ensures
        reg.index_of(b) == i,
        reg.def_of(b) == reg.defs@[i],
{
    let k = reg.index_of(b);
    assert(0 <= k < reg.defs@.len() && reg.defs@[k].id == b);
}

} // verus!
