//! The bundles of properties read by the BSP compiler tools, and the plugin
//! that registers them.

use vstd::prelude::*;
use crate::codec::{Angles, BspLightAttenuation, Color, DirtMode, Override};
use crate::decimal::Decimal;
use crate::entity::complete;
use crate::schema::{
    bundle_wf, field_wf, BundleDef, BundleId, FieldDef, Registry, SchemaError,
};
use crate::value::{encodable, fits, ScalarKind as K, Value};

verus! {

/// Each field as its key, its kind and its default.
pub type FieldsModel = Seq<(Seq<char>, K, Value)>;

pub open spec fn field_model(d: BundleDef) -> FieldsModel {
    d.fields@.map_values(|f: FieldDef| (f.name@, f.kind, f.default))
}

pub open spec fn num(magnitude: u64, scale: u32) -> Value {
    Value::Number(Decimal { negative: false, magnitude, scale })
}

pub open spec fn white_value() -> Value {
    let full = Decimal { negative: false, magnitude: 255, scale: 0 };
    Value::Color(Color { r: full, g: full, b: full })
}

pub open spec fn zero_angles_value() -> Angles {
    let zero = Decimal { negative: false, magnitude: 0, scale: 0 };
    Angles { yaw: zero, pitch: zero, roll: zero }
}

/// Straight down: yaw 0, pitch -90, roll 0.
pub open spec fn down_angles() -> Angles {
    Angles {
        yaw: Decimal { negative: false, magnitude: 0, scale: 0 },
        pitch: Decimal { negative: true, magnitude: 90, scale: 0 },
        roll: Decimal { negative: false, magnitude: 0, scale: 0 },
    }
}

/// The fields of every entity with a brush model.
pub open spec fn solid_fields() -> FieldsModel {
    seq![
        ("_lmscale"@, K::Count, Value::Absent),
        ("_mirrorinside"@, K::Flag, Value::Flag(false)),
        ("_minlight"@, K::Number, num(0, 0)),
        ("_minlight_color"@, K::Color, white_value()),
        ("_minlight_exclude"@, K::Text, Value::Absent),
        ("_shadow"@, K::Flag, Value::Flag(false)),
        ("_shadowself"@, K::Flag, Value::Flag(false)),
        ("_shadowworldonly"@, K::Flag, Value::Flag(false)),
        ("_switchableshadow"@, K::Flag, Value::Flag(false)),
        ("_dirt"@, K::Override, Value::Override(Override::Unset)),
        ("_phong"@, K::Flag, Value::Flag(false)),
        ("_phong_angle"@, K::Number, num(89, 0)),
        ("_phong_angle_concave"@, K::Number, Value::Absent),
        ("_lightignore"@, K::Flag, Value::Flag(false)),
    ]
}

/// The fields of the `worldspawn` entity.
pub open spec fn worldspawn_fields() -> FieldsModel {
    seq![
        ("_dist"@, K::Number, num(1, 0)),
        ("_range"@, K::Number, num(5, 1)),
        ("_sunlight"@, K::Number, num(0, 0)),
        ("_anglescale"@, K::Number, num(5, 1)),
        ("_sunlight_mangle"@, K::Angles, Value::Angles(down_angles())),
        ("_sunlight_penumbra"@, K::Number, num(0, 0)),
        ("_sunlight_color"@, K::Color, white_value()),
        ("_sunlight2"@, K::Number, num(0, 0)),
        ("_sunlight2_color"@, K::Color, white_value()),
        ("_sunlight3"@, K::Number, num(0, 0)),
        ("_sunlight3_color"@, K::Color, white_value()),
        ("_sunlight_dirt"@, K::Override, Value::Override(Override::Unset)),
        ("_sunlight2_dirt"@, K::Override, Value::Override(Override::Unset)),
        ("_minlight_dirt"@, K::Override, Value::Override(Override::Unset)),
        ("_dirtmode"@, K::Dirt, Value::Dirt(DirtMode::Ordered)),
        ("_dirtdepth"@, K::Number, num(128, 0)),
        ("_dirtscale"@, K::Number, num(1, 0)),
        ("_dirtgain"@, K::Number, num(1, 0)),
        ("_dirtangle"@, K::Number, num(88, 0)),
        ("_lightmap_scale"@, K::Number, Value::Absent),
        ("_bounce"@, K::Flag, Value::Flag(false)),
        ("_bouncescale"@, K::Number, num(1, 0)),
        ("_bouncecolorscale"@, K::Number, num(0, 0)),
        ("_bouncestyled"@, K::Flag, Value::Flag(false)),
        ("_spotlightautofalloff"@, K::Flag, Value::Flag(false)),
    ]
}

/// The fields of light entities.
pub open spec fn light_fields() -> FieldsModel {
    seq![
        ("light"@, K::Number, num(300, 0)),
        ("wait"@, K::Number, num(1, 0)),
        ("delay"@, K::Attenuation, Value::Attenuation(BspLightAttenuation::Linear)),
        ("_falloff"@, K::Number, Value::Absent),
        ("_color"@, K::Color, white_value()),
        ("target"@, K::Text, Value::Absent),
        ("mangle"@, K::Angles, Value::Angles(zero_angles_value())),
        ("angle"@, K::Number, num(40, 0)),
        ("_softangle"@, K::Number, num(0, 0)),
        ("targetname"@, K::Text, Value::Absent),
        ("style"@, K::Count, Value::Count(0)),
        ("_anglescale"@, K::Number, num(5, 1)),
        ("_dirtscale"@, K::Number, Value::Absent),
        ("_dirtgain"@, K::Number, Value::Absent),
        ("_dirt"@, K::Override, Value::Override(Override::Unset)),
        ("_deviance"@, K::Number, num(0, 0)),
        ("_samples"@, K::Count, Value::Count(16)),
        ("_surface"@, K::Text, Value::Absent),
        ("_surface_offset"@, K::Number, num(2, 0)),
        ("_surface_spotlight"@, K::Flag, Value::Flag(false)),
        ("_project_texture"@, K::Text, Value::Absent),
        ("_project_mangle"@, K::Angles, Value::Absent),
        ("_project_fov"@, K::Number, num(90, 0)),
        ("_bouncescale"@, K::Number, num(1, 0)),
        ("_sun"@, K::Flag, Value::Flag(false)),
    ]
}

/// The declared fields of bundle `b`.
pub open spec fn fields_of(b: BundleId) -> FieldsModel {
    match b {
        BundleId::SolidEntity => solid_fields(),
        BundleId::Worldspawn => worldspawn_fields(),
        BundleId::Light => light_fields(),
    }
}

/// The name of bundle `b`.
pub open spec fn bundle_name(b: BundleId) -> Seq<char> {
    match b {
        BundleId::SolidEntity => "BspSolidEntity"@,
        BundleId::Worldspawn => "BspWorldspawn"@,
        BundleId::Light => "BspLight"@,
    }
}

/// Every default fits its field and round-trips; keys are unique.
pub open spec fn table_wf(t: FieldsModel) -> bool {
    &&& forall|i: int| 0 <= i < t.len() ==> fits((#[trigger] t[i]).1, t[i].2) && encodable(t[i].2)
    &&& forall|i: int, j: int|
        0 <= i < t.len() && 0 <= j < t.len() && i != j ==> (#[trigger] t[i]).0 != (#[trigger] t[j]).0
}

proof fn lemma_distinct_keys(t: FieldsModel)
    requires
        forall|i: int, j: int|
            0 <= i < t.len() && 0 <= j < t.len() && i != j && #[trigger] t[i].0 == #[trigger] t[j].0
                ==> t[i].0.len() != t[j].0.len() || t[i].0[1] != t[j].0[1]
                || t[i].0[t[i].0.len() - 1] != t[j].0[t[j].0.len() - 1]
                || t[i].0[t[i].0.len() - 2] != t[j].0[t[j].0.len() - 2]
                || (t[i].0.len() > 5 && t[i].0[5] != t[j].0[5])
                || (t[i].0.len() > 9 && t[i].0[9] != t[j].0[9]),
    ensures
        forall|i: int, j: int|
            0 <= i < t.len() && 0 <= j < t.len() && i != j ==> (#[trigger] t[i]).0 != (#[trigger] t[j]).0,
{
}

/// The declared tables are well formed.
pub proof fn lemma_tables_wf()
    ensures
        table_wf(solid_fields()),
        table_wf(worldspawn_fields()),
        table_wf(light_fields()),
{
    reveal_strlit("_anglescale");
    reveal_strlit("_bounce");
    reveal_strlit("_bouncecolorscale");
    reveal_strlit("_bouncescale");
    reveal_strlit("_bouncestyled");
    reveal_strlit("_color");
    reveal_strlit("_deviance");
    reveal_strlit("_dirt");
    reveal_strlit("_dirtangle");
    reveal_strlit("_dirtdepth");
    reveal_strlit("_dirtgain");
    reveal_strlit("_dirtmode");
    reveal_strlit("_dirtscale");
    reveal_strlit("_dist");
    reveal_strlit("_falloff");
    reveal_strlit("_lightignore");
    reveal_strlit("_lightmap_scale");
    reveal_strlit("_lmscale");
    reveal_strlit("_minlight");
    reveal_strlit("_minlight_color");
    reveal_strlit("_minlight_dirt");
    reveal_strlit("_minlight_exclude");
    reveal_strlit("_mirrorinside");
    reveal_strlit("_phong");
    reveal_strlit("_phong_angle");
    reveal_strlit("_phong_angle_concave");
    reveal_strlit("_project_fov");
    reveal_strlit("_project_mangle");
    reveal_strlit("_project_texture");
    reveal_strlit("_range");
    reveal_strlit("_samples");
    reveal_strlit("_shadow");
    reveal_strlit("_shadowself");
    reveal_strlit("_shadowworldonly");
    reveal_strlit("_softangle");
    reveal_strlit("_spotlightautofalloff");
    reveal_strlit("_sun");
    reveal_strlit("_sunlight");
    reveal_strlit("_sunlight2");
    reveal_strlit("_sunlight2_color");
    reveal_strlit("_sunlight2_dirt");
    reveal_strlit("_sunlight3");
    reveal_strlit("_sunlight3_color");
    reveal_strlit("_sunlight_color");
    reveal_strlit("_sunlight_dirt");
    reveal_strlit("_sunlight_mangle");
    reveal_strlit("_sunlight_penumbra");
    reveal_strlit("_surface");
    reveal_strlit("_surface_offset");
    reveal_strlit("_surface_spotlight");
    reveal_strlit("_switchableshadow");
    reveal_strlit("angle");
    reveal_strlit("delay");
    reveal_strlit("light");
    reveal_strlit("mangle");
    reveal_strlit("style");
    reveal_strlit("target");
    reveal_strlit("targetname");
    reveal_strlit("wait");
    lemma_distinct_keys(solid_fields());
    lemma_distinct_keys(worldspawn_fields());
    lemma_distinct_keys(light_fields());
}

proof fn lemma_bundle_wf_from_model(d: BundleDef)
    requires
        table_wf(field_model(d)),
    ensures
        bundle_wf(d),
{
    let t = field_model(d);
    assert forall|i: int| 0 <= i < d.fields@.len() implies field_wf(#[trigger] d.fields@[i]) by {
        assert(t[i] == (d.fields@[i].name@, d.fields@[i].kind, d.fields@[i].default));
    }
    assert forall|i: int, j: int|
        0 <= i < d.fields@.len() && 0 <= j < d.fields@.len() && i != j implies (#[trigger] d.fields@[i]).name@
            != (#[trigger] d.fields@[j]).name@ by {
        assert(t[i].0 == d.fields@[i].name@);
        assert(t[j].0 == d.fields@[j].name@);
    }
}

fn field(name: &str, kind: K, default: Value, doc: &str) -> (r: FieldDef)
    ensures
        r.name@ == name@,
        r.kind == kind,
        r.default == default,
        r.doc@ == doc@,
{
    FieldDef { name: name.to_owned(), kind, default, doc: doc.to_owned() }
}

fn number(magnitude: u64, scale: u32) -> (r: Value)
    ensures
        r == num(magnitude, scale),
{
    Value::Number(Decimal { negative: false, magnitude, scale })
}

fn white() -> (r: Value)
    ensures
        r == white_value(),
{
    let full = Decimal { negative: false, magnitude: 255, scale: 0 };
    Value::Color(Color { r: full, g: full, b: full })
}

fn zero_angles() -> (r: Angles)
    ensures
        r == zero_angles_value(),
{
    let zero = Decimal { negative: false, magnitude: 0, scale: 0 };
    Angles { yaw: zero, pitch: zero, roll: zero }
}

fn sun_down() -> (r: Angles)
    ensures
        r == down_angles(),
{
    Angles {
        yaw: Decimal { negative: false, magnitude: 0, scale: 0 },
        pitch: Decimal { negative: true, magnitude: 90, scale: 0 },
        roll: Decimal { negative: false, magnitude: 0, scale: 0 },
    }
}

/// Properties of any entity with a brush model.
pub struct BspSolidEntity;

impl BspSolidEntity {
    pub fn bundle_id() -> (r: BundleId)
        ensures
            r == BundleId::SolidEntity,
    {
        BundleId::SolidEntity
    }

    /// The bundle's fields and their defaults, in declaration order.
    pub fn definition() -> (r: BundleDef)
        ensures
            r.id == BundleId::SolidEntity,
            r.name@ == bundle_name(BundleId::SolidEntity),
            field_model(r) == solid_fields(),
            bundle_wf(r),
    {
        let mut f: Vec<FieldDef> = Vec::new();
        f.push(field("_lmscale", K::Count, Value::Absent, "Writes an LMSHIFT lump for the light tool."));
        f.push(field("_mirrorinside", K::Flag, Value::Flag(false), "1 keeps mirrored inside faces of brush models."));
        f.push(field("_minlight", K::Number, number(0, 0), "Minimum light level of the surfaces."));
        f.push(field("_minlight_color", K::Color, white(), "Color of the minimum light."));
        f.push(field("_minlight_exclude", K::Text, Value::Absent, "Texture whose faces get no minimum light."));
        f.push(field("_shadow", K::Flag, Value::Flag(false), "1 makes the model cast shadows."));
        f.push(field("_shadowself", K::Flag, Value::Flag(false), "1 makes the model shadow itself."));
        f.push(field("_shadowworldonly", K::Flag, Value::Flag(false), "1 makes the model shadow the world only."));
        f.push(field("_switchableshadow", K::Flag, Value::Flag(false), "1 makes the model's shadow switchable."));
        f.push(field("_dirt", K::Override, Value::Override(Override::Unset), "Dirtmapping of the model: 1 on, -1 off."));
        f.push(field("_phong", K::Flag, Value::Flag(false), "1 enables phong shading."));
        f.push(field("_phong_angle", K::Number, number(89, 0), "Largest angle between smoothed faces."));
        f.push(field("_phong_angle_concave", K::Number, Value::Absent, "Smoothing angle for concave joints."));
        f.push(field("_lightignore", K::Flag, Value::Flag(false), "1 makes the model receive minimum light only."));
        let r = BundleDef { id: BundleId::SolidEntity, name: "BspSolidEntity".to_owned(), fields: f };
        assert(field_model(r) =~= solid_fields());
        proof {
            lemma_tables_wf();
            lemma_bundle_wf_from_model(r);
        }
        r
    }
}

/// Properties of the `worldspawn` entity; it requires [`BspSolidEntity`].
pub struct BspWorldspawn;

impl BspWorldspawn {
    pub fn bundle_id() -> (r: BundleId)
        ensures
            r == BundleId::Worldspawn,
    {
        BundleId::Worldspawn
    }

    /// The bundle's fields and their defaults, in declaration order.
    pub fn definition() -> (r: BundleDef)
        ensures
            r.id == BundleId::Worldspawn,
            r.name@ == bundle_name(BundleId::Worldspawn),
            field_model(r) == worldspawn_fields(),
            bundle_wf(r),
    {
        let mut f: Vec<FieldDef> = Vec::new();
        f.push(field("_dist", K::Number, number(1, 0), "Scales the fade distance of all lights."));
        f.push(field("_range", K::Number, number(5, 1), "Scales the brightness range of all lights."));
        f.push(field("_sunlight", K::Number, number(0, 0), "Brightness of the sunlight."));
        f.push(field("_anglescale", K::Number, number(5, 1), "Effect of the angle of incidence on sunlight."));
        f.push(field("_sunlight_mangle", K::Angles, Value::Angles(sun_down()), "Direction of the sunlight."));
        f.push(field("_sunlight_penumbra", K::Number, number(0, 0), "Penumbra width of the sunlight, in degrees."));
        f.push(field("_sunlight_color", K::Color, white(), "Color of the sunlight."));
        f.push(field("_sunlight2", K::Number, number(0, 0), "Brightness of the upper dome of light."));
        f.push(field("_sunlight2_color", K::Color, white(), "Color of the upper dome of light."));
        f.push(field("_sunlight3", K::Number, number(0, 0), "Brightness of the lower dome of light."));
        f.push(field("_sunlight3_color", K::Color, white(), "Color of the lower dome of light."));
        f.push(field("_sunlight_dirt", K::Override, Value::Override(Override::Unset), "Dirtmapping of the sunlight; defers to _dirt."));
        f.push(field("_sunlight2_dirt", K::Override, Value::Override(Override::Unset), "Dirtmapping of the domes; defers to _dirt."));
        f.push(field("_minlight_dirt", K::Override, Value::Override(Override::Unset), "Dirtmapping of the minimum light; defers to _dirt."));
        f.push(field("_dirtmode", K::Dirt, Value::Dirt(DirtMode::Ordered), "Ordered (0) or randomized (1) dirtmapping."));
        f.push(field("_dirtdepth", K::Number, number(128, 0), "Depth of occlusion checks for dirtmapping."));
        f.push(field("_dirtscale", K::Number, number(1, 0), "Scale of the dirt."));
        f.push(field("_dirtgain", K::Number, number(1, 0), "Exponent of the dirt."));
        f.push(field("_dirtangle", K::Number, number(88, 0), "Cone angle of occlusion checks, in degrees."));
        f.push(field("_lightmap_scale", K::Number, Value::Absent, "Lightmap scale forced on all surfaces."));
        f.push(field("_bounce", K::Flag, Value::Flag(false), "1 enables bounce lighting."));
        f.push(field("_bouncescale", K::Number, number(1, 0), "Brightness of bounce lighting."));
        f.push(field("_bouncecolorscale", K::Number, number(0, 0), "Weight of texture colors in bounce lighting."));
        f.push(field("_bouncestyled", K::Flag, Value::Flag(false), "1 makes styled lights bounce."));
        f.push(field("_spotlightautofalloff", K::Flag, Value::Flag(false), "1 derives spotlight falloff from the target."));
        let r = BundleDef { id: BundleId::Worldspawn, name: "BspWorldspawn".to_owned(), fields: f };
        assert(field_model(r) =~= worldspawn_fields());
        proof {
            lemma_tables_wf();
            lemma_bundle_wf_from_model(r);
        }
        r
    }
}

/// Properties of light entities.
pub struct BspLight;

impl BspLight {
    pub fn bundle_id() -> (r: BundleId)
        ensures
            r == BundleId::Light,
    {
        BundleId::Light
    }

    /// The bundle's fields and their defaults, in declaration order.
    pub fn definition() -> (r: BundleDef)
        ensures
            r.id == BundleId::Light,
            r.name@ == bundle_name(BundleId::Light),
            field_model(r) == light_fields(),
            bundle_wf(r),
    {
        let mut f: Vec<FieldDef> = Vec::new();
        f.push(field("light", K::Number, number(300, 0), "Intensity of the light."));
        f.push(field("wait", K::Number, number(1, 0), "Scales the fade distance of the light."));
        f.push(field("delay", K::Attenuation, Value::Attenuation(BspLightAttenuation::Linear), "Attenuation formula."));
        f.push(field("_falloff", K::Number, Value::Absent, "Distance at which the light reaches zero."));
        f.push(field("_color", K::Color, white(), "Color of the light."));
        f.push(field("target", K::Text, Value::Absent, "Name of the entity a spotlight points at."));
        f.push(field("mangle", K::Angles, Value::Angles(zero_angles()), "Direction of a spotlight."));
        f.push(field("angle", K::Number, number(40, 0), "Cone angle of a spotlight, in degrees."));
        f.push(field("_softangle", K::Number, number(0, 0), "Inner cone angle of a spotlight, in degrees."));
        f.push(field("targetname", K::Text, Value::Absent, "Name that makes the light switchable."));
        f.push(field("style", K::Count, Value::Count(0), "Animated light style."));
        f.push(field("_anglescale", K::Number, number(5, 1), "Effect of the angle of incidence."));
        f.push(field("_dirtscale", K::Number, Value::Absent, "Overrides the world's dirt scale."));
        f.push(field("_dirtgain", K::Number, Value::Absent, "Overrides the world's dirt gain."));
        f.push(field("_dirt", K::Override, Value::Override(Override::Unset), "Dirtmapping of the light; defers to the world."));
        f.push(field("_deviance", K::Number, number(0, 0), "Radius of the sphere the light is split over."));
        f.push(field("_samples", K::Count, Value::Count(16), "Number of lights for _deviance."));
        f.push(field("_surface", K::Text, Value::Absent, "Texture whose surfaces emit this light."));
        f.push(field("_surface_offset", K::Number, number(2, 0), "Offset of surface lights."));
        f.push(field("_surface_spotlight", K::Flag, Value::Flag(false), "1 makes surface lights spotlights."));
        f.push(field("_project_texture", K::Text, Value::Absent, "Texture the light projects."));
        f.push(field("_project_mangle", K::Angles, Value::Absent, "Direction of the projection."));
        f.push(field("_project_fov", K::Number, number(90, 0), "Field of view of the projection."));
        f.push(field("_bouncescale", K::Number, number(1, 0), "Scales the light's bounce contribution."));
        f.push(field("_sun", K::Flag, Value::Flag(false), "1 makes the light a sun."));
        let r = BundleDef { id: BundleId::Light, name: "BspLight".to_owned(), fields: f };
        assert(field_model(r) =~= light_fields());
        proof {
            lemma_tables_wf();
            lemma_bundle_wf_from_model(r);
        }
        r
    }
}

/// Registers the bundles of the BSP compiler tools.
pub struct BspBaseClassesPlugin;

impl BspBaseClassesPlugin {
    /// Registers [`BspSolidEntity`], [`BspWorldspawn`] and [`BspLight`], in
    /// that order; bundles already registered are kept as they are.
    pub fn build(&self, reg: &mut Registry) -> (r: Result<(), SchemaError>)
        requires
            old(reg).wf(),
        ensures
            r is Ok,
            final(reg).wf(),
            complete(*final(reg)),
            final(reg).defs@.len() >= old(reg).defs@.len(),
            final(reg).defs@.take(old(reg).defs@.len() as int) == old(reg).defs@,
            forall|b: BundleId| old(reg).has(b) ==> #[trigger] final(reg).def_of(b) == old(reg).def_of(b),
            forall|b: BundleId|
                !old(reg).has(b) ==> #[trigger] final(reg).def_of(b).name@ == bundle_name(b)
                    && field_model(final(reg).def_of(b)) == fields_of(b),
            old(reg).defs@.len() == 0 ==> final(reg).ids() == seq![
                BundleId::SolidEntity,
                BundleId::Worldspawn,
                BundleId::Light,
            ],
    {
        let ghost r0 = *reg;
        let d1 = BspSolidEntity::definition();
        let d2 = BspWorldspawn::definition();
        let d3 = BspLight::definition();
        let ghost (g1, g2, g3) = (d1, d2, d3);
        reg.register(d1)?;
        let ghost r1 = *reg;
        reg.register(d2)?;
        let ghost r2 = *reg;
        reg.register(d3)?;
        proof {
            assert forall|b: BundleId|
                !r0.has(b) implies #[trigger] reg.def_of(b).name@ == bundle_name(b)
                    && field_model(reg.def_of(b)) == fields_of(b) by {
                match b {
                    BundleId::SolidEntity => {
                        assert(r1.def_of(b) == g1);
                    },
                    BundleId::Worldspawn => {
                        assert(!r1.has(b));
                        assert(r2.def_of(b) == g2);
                    },
                    BundleId::Light => {
                        assert(!r1.has(b));
                        assert(!r2.has(b));
                    },
                }
            }
            let n = r0.defs@.len() as int;
            assert(r1.defs@.take(n) =~= r0.defs@.take(n));
            assert(r2.defs@.take(n) =~= r1.defs@.take(n));
            assert(reg.defs@.take(n) =~= r2.defs@.take(n));
            assert(reg.defs@.take(n) =~= r0.defs@);
            if r0.defs@.len() == 0 {
                assert(reg.ids() =~= seq![BundleId::SolidEntity, BundleId::Worldspawn, BundleId::Light]);
            }
        }
        Ok(())
    }
}

} // verus!
