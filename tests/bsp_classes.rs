use bsp_classes::bundles::{BspBaseClassesPlugin, BspLight, BspSolidEntity, BspWorldspawn};
use bsp_classes::codec::{BspLightAttenuation, Color, DirtMode, Override};
use bsp_classes::decimal::{decode_decimal, decode_number, encode_decimal, Decimal};
use bsp_classes::entity::{decode_entity, encode_entity, Entity};
use bsp_classes::schema::{required_bundles, BundleDef, BundleId, FieldDef, Registry, SchemaError};
use bsp_classes::value::{decode_value, encode_value, DecodeErrorKind, ScalarKind, Value};

fn chars(s: &str) -> Vec<char> {
    s.chars().collect()
}

fn registry() -> Registry {
    let mut reg = Registry::new();
    BspBaseClassesPlugin.build(&mut reg).unwrap();
    reg
}

fn pairs(items: &[(&str, &str)]) -> Vec<(String, String)> {
    items.iter().map(|(k, v)| (k.to_string(), v.to_string())).collect()
}

fn dec(negative: bool, magnitude: u64, scale: u32) -> Decimal {
    Decimal::new(negative, magnitude, scale)
}

#[test]
fn registry_lists_bundles_in_declaration_order() {
    let reg = registry();
    assert_eq!(
        reg.all_ids(),
        vec![BundleId::SolidEntity, BundleId::Worldspawn, BundleId::Light]
    );
    assert_eq!(reg.lookup("BspLight").unwrap().id, BundleId::Light);
    assert!(reg.lookup("BspNothing").is_none());
    assert_eq!(BspSolidEntity::bundle_id(), BundleId::SolidEntity);
    assert_eq!(BspWorldspawn::bundle_id(), BundleId::Worldspawn);
    assert_eq!(BspLight::bundle_id(), BundleId::Light);
}

#[test]
fn building_twice_registers_each_bundle_once() {
    let mut reg = registry();
    BspBaseClassesPlugin.build(&mut reg).unwrap();
    assert_eq!(reg.all_ids().len(), 3);
}

#[test]
fn worldspawn_requires_solid_entity() {
    assert_eq!(required_bundles(BundleId::Worldspawn), vec![BundleId::SolidEntity]);
    assert!(required_bundles(BundleId::Light).is_empty());
    assert!(required_bundles(BundleId::SolidEntity).is_empty());
}

#[test]
fn every_declared_default_round_trips() {
    let reg = registry();
    let mut checked = 0;
    for def in &reg.defs {
        for f in &def.fields {
            if f.default == Value::Absent {
                continue;
            }
            let text = encode_value(&f.default);
            assert_eq!(decode_value(f.kind, &text), Ok(f.default.clone()), "{}", f.name);
            checked += 1;
        }
    }
    assert!(checked > 40);
}

#[test]
fn override_resolution() {
    for f in [false, true] {
        assert_eq!(Override::Unset.resolve(f), f);
        assert!(Override::ForceTrue.resolve(f));
        assert!(!Override::ForceFalse.resolve(f));
    }
    // a light's override falls back to the world's, which falls back to a hard default
    let world = Override::Unset.resolve(true);
    assert!(Override::Unset.resolve(world));
    assert!(!Override::ForceFalse.resolve(world));
}

#[test]
fn attaching_worldspawn_brings_solid_entity_and_is_idempotent() {
    let reg = registry();
    let mut e = Entity::new();
    e.attach(&reg, BundleId::Worldspawn);
    assert_eq!(e.bundles.len(), 2);
    assert_eq!(e.bundles[0].id, BundleId::SolidEntity);
    assert_eq!(e.bundles[1].id, BundleId::Worldspawn);
    let solid = BspSolidEntity::definition();
    let world = BspWorldspawn::definition();
    let solid_defaults: Vec<Value> = solid.fields.iter().map(|f| f.default.clone()).collect();
    let world_defaults: Vec<Value> = world.fields.iter().map(|f| f.default.clone()).collect();
    assert_eq!(e.bundles[0].values, solid_defaults);
    assert_eq!(e.bundles[1].values, world_defaults);

    e.bundles[1].values[0] = Value::Number(dec(false, 2, 0));
    let before = e.clone();
    e.attach(&reg, BundleId::Worldspawn);
    assert_eq!(e, before);
    e.attach(&reg, BundleId::SolidEntity);
    assert_eq!(e, before);
}

#[test]
fn color_scales_agree() {
    let a = decode_value(ScalarKind::Color, "255 255 255").unwrap();
    let b = decode_value(ScalarKind::Color, "1 1 1").unwrap();
    assert_eq!(a, b);
    assert_eq!(encode_value(&a), "255 255 255");
}

#[test]
fn color_in_unit_scale_rounds_on_encode() {
    let c = decode_value(ScalarKind::Color, "0.5  0.5\t0.5").unwrap();
    let half = dec(false, 1275, 1);
    assert_eq!(c, Value::Color(Color { r: half, g: half, b: half }));
    assert_eq!(encode_value(&c), "128 128 128");
    let mixed = decode_value(ScalarKind::Color, "0 128 2").unwrap();
    assert_eq!(encode_value(&mixed), "0 128 2");
}

#[test]
fn color_rejects_bad_text() {
    for t in ["255 255", "1 2 3 4", "a b c", "1 0,5 0", ""] {
        assert_eq!(
            decode_value(ScalarKind::Color, t),
            Err(DecodeErrorKind::FieldDecodeError),
            "{t}"
        );
    }
}

#[test]
fn unknown_key_survives_decode_and_encode() {
    let reg = registry();
    let input = pairs(&[("light", "250"), ("_custom_flag", "7")]);
    let (e, errs) = decode_entity(&reg, &input, &vec![BundleId::Light]);
    assert!(errs.is_empty());
    assert_eq!(e.unknown, pairs(&[("_custom_flag", "7")]));
    let out = encode_entity(&reg, &e);
    assert!(out.contains(&("_custom_flag".to_string(), "7".to_string())));
    assert_eq!(out.last().unwrap(), &("_custom_flag".to_string(), "7".to_string()));
}

#[test]
fn attenuation_codes() {
    assert_eq!(
        decode_value(ScalarKind::Attenuation, "2"),
        Ok(Value::Attenuation(BspLightAttenuation::ReciprocalSquare))
    );
    assert_eq!(
        decode_value(ScalarKind::Attenuation, "9"),
        Err(DecodeErrorKind::UnknownEnumValue)
    );
    assert_eq!(
        decode_value(ScalarKind::Attenuation, "x"),
        Err(DecodeErrorKind::FieldDecodeError)
    );
    assert_eq!(encode_value(&Value::Attenuation(BspLightAttenuation::ReciprocalSquareTweaked)), "5");
    assert_eq!(BspLightAttenuation::from_code(3), Some(BspLightAttenuation::NoAttenuation));
    assert_eq!(DirtMode::from_code(1), Some(DirtMode::Randomized));
    assert_eq!(DirtMode::from_code(2), None);
    assert_eq!(DirtMode::Randomized.code(), 1);
}

#[test]
fn bad_enum_value_does_not_affect_other_fields() {
    let reg = registry();
    let input = pairs(&[("delay", "9"), ("light", "250"), ("_color", "1 0 0")]);
    let (e, errs) = decode_entity(&reg, &input, &vec![BundleId::Light]);
    assert_eq!(errs.len(), 1);
    assert_eq!(errs[0].field, "delay");
    assert_eq!(errs[0].text, "9");
    assert_eq!(errs[0].expected, ScalarKind::Attenuation);
    assert_eq!(errs[0].kind, DecodeErrorKind::UnknownEnumValue);
    let light = BspLight::definition();
    let idx = |name: &str| light.fields.iter().position(|f| f.name == name).unwrap();
    let vals = &e.bundles[0].values;
    assert_eq!(vals[idx("delay")], Value::Attenuation(BspLightAttenuation::Linear));
    assert_eq!(vals[idx("light")], Value::Number(dec(false, 250, 0)));
    let full = dec(false, 255, 0);
    let zero = dec(false, 0, 0);
    assert_eq!(vals[idx("_color")], Value::Color(Color { r: full, g: zero, b: zero }));

    let good = pairs(&[("delay", "2")]);
    let (e2, errs2) = decode_entity(&reg, &good, &vec![BundleId::Light]);
    assert!(errs2.is_empty());
    assert_eq!(
        e2.bundles[0].values[idx("delay")],
        Value::Attenuation(BspLightAttenuation::ReciprocalSquare)
    );
}

#[test]
fn decode_reports_every_malformed_field() {
    let reg = registry();
    let input = pairs(&[("_dist", "far"), ("_sunlight", "200"), ("_shadow", "yes"), ("_dirt", "-1")]);
    let (e, errs) = decode_entity(&reg, &input, &vec![BundleId::Worldspawn]);
    assert_eq!(errs.len(), 2);
    let fields: Vec<&str> = errs.iter().map(|x| x.field.as_str()).collect();
    assert!(fields.contains(&"_dist"));
    assert!(fields.contains(&"_shadow"));
    let solid = BspSolidEntity::definition();
    let dirt = solid.fields.iter().position(|f| f.name == "_dirt").unwrap();
    assert_eq!(e.bundles[0].values[dirt], Value::Override(Override::ForceFalse));
    let world = BspWorldspawn::definition();
    let sun = world.fields.iter().position(|f| f.name == "_sunlight").unwrap();
    assert_eq!(e.bundles[1].values[sun], Value::Number(dec(false, 200, 0)));
}

#[test]
fn later_pair_wins_and_optional_fields_are_omitted() {
    let reg = registry();
    let input = pairs(&[("target", "a"), ("target", "b")]);
    let (e, _) = decode_entity(&reg, &input, &vec![BundleId::Light]);
    let out = encode_entity(&reg, &e);
    assert!(out.contains(&("target".to_string(), "b".to_string())));
    assert!(!out.iter().any(|(k, _)| k == "_falloff" || k == "_dirt" || k == "targetname"));
    assert!(out.contains(&("light".to_string(), "300".to_string())));
    assert!(out.contains(&("_anglescale".to_string(), "0.5".to_string())));
    assert!(out.contains(&("_color".to_string(), "255 255 255".to_string())));
}

#[test]
fn encode_then_decode_gives_back_the_entity() {
    let reg = registry();
    let input = pairs(&[("_sunlight_mangle", "10 -45.5 0"), ("_dirt", "1"), ("_lmscale", "4")]);
    let (e, errs) = decode_entity(&reg, &input, &vec![BundleId::Worldspawn]);
    assert!(errs.is_empty());
    let out = encode_entity(&reg, &e);
    let (again, errs2) = decode_entity(&reg, &out, &vec![BundleId::Worldspawn]);
    assert!(errs2.is_empty());
    assert_eq!(again, e);
}

#[test]
fn decimal_text_round_trips() {
    for t in ["0", "-90", "0.5", "1.50", "300", "0.001", "-0.25", "18446744073709551615"] {
        let d = decode_decimal(&chars(t)).unwrap();
        let back: String = encode_decimal(&d).into_iter().collect();
        assert_eq!(back, t);
    }
    assert_eq!(decode_decimal(&chars("0.5")), Some(dec(false, 5, 1)));
    assert_eq!(decode_decimal(&chars("-90")), Some(dec(true, 90, 0)));
    assert_eq!(decode_decimal(&chars("007")), Some(dec(false, 7, 0)));
}

#[test]
fn decimal_rejects_malformed_text() {
    for t in ["", "-", "+", ".", "-.", "1.2.3", "abc", "1e5", "++1", " 1", "18446744073709551616"] {
        assert_eq!(decode_decimal(&chars(t)), None, "{t}");
    }
}

#[test]
fn flags_and_overrides() {
    assert_eq!(decode_value(ScalarKind::Flag, "5"), Ok(Value::Flag(true)));
    assert_eq!(decode_value(ScalarKind::Flag, "0"), Ok(Value::Flag(false)));
    assert_eq!(decode_value(ScalarKind::Flag, "1.0"), Err(DecodeErrorKind::FieldDecodeError));
    assert_eq!(encode_value(&Value::Flag(true)), "1");
    assert_eq!(encode_value(&Value::Flag(false)), "0");
    assert_eq!(decode_value(ScalarKind::Override, "-1"), Ok(Value::Override(Override::ForceFalse)));
    assert_eq!(decode_value(ScalarKind::Override, "0"), Ok(Value::Override(Override::Unset)));
    assert_eq!(decode_value(ScalarKind::Override, "3"), Ok(Value::Override(Override::ForceTrue)));
    assert_eq!(encode_value(&Value::Override(Override::ForceFalse)), "-1");
    assert_eq!(encode_value(&Value::Override(Override::ForceTrue)), "1");
}

#[test]
fn counts_text_and_angles() {
    assert_eq!(decode_value(ScalarKind::Count, "16"), Ok(Value::Count(16)));
    assert_eq!(decode_value(ScalarKind::Count, "-3"), Err(DecodeErrorKind::FieldDecodeError));
    assert_eq!(decode_value(ScalarKind::Count, "4294967296"), Err(DecodeErrorKind::FieldDecodeError));
    assert_eq!(encode_value(&Value::Count(4294967295)), "4294967295");
    assert_eq!(decode_value(ScalarKind::Text, " any text "), Ok(Value::Text(" any text ".to_string())));
    let a = decode_value(ScalarKind::Angles, "0 -90 0").unwrap();
    assert_eq!(encode_value(&a), "0 -90 0");
    assert_eq!(decode_value(ScalarKind::Angles, "0 -90"), Err(DecodeErrorKind::FieldDecodeError));
    assert_eq!(decode_value(ScalarKind::Dirt, "1"), Ok(Value::Dirt(DirtMode::Randomized)));
    assert_eq!(decode_value(ScalarKind::Dirt, "-1"), Err(DecodeErrorKind::UnknownEnumValue));
}

#[test]
fn malformed_bundles_are_refused() {
    let mut reg = Registry::new();
    let f = |name: &str, kind, default| FieldDef {
        name: name.to_string(),
        kind,
        default,
        doc: String::new(),
    };
    let dup = BundleDef {
        id: BundleId::Light,
        name: "BspLight".to_string(),
        fields: vec![
            f("a", ScalarKind::Flag, Value::Flag(false)),
            f("a", ScalarKind::Flag, Value::Flag(true)),
        ],
    };
    assert_eq!(reg.register(dup), Err(SchemaError::DuplicateField));
    let mistyped = BundleDef {
        id: BundleId::Light,
        name: "BspLight".to_string(),
        fields: vec![f("a", ScalarKind::Flag, Value::Count(1))],
    };
    assert_eq!(reg.register(mistyped), Err(SchemaError::InvalidDefault));
    let dark = Decimal::from_u64(1);
    let ambiguous = BundleDef {
        id: BundleId::Light,
        name: "BspLight".to_string(),
        fields: vec![f("c", ScalarKind::Color, Value::Color(Color { r: dark, g: dark, b: dark }))],
    };
    assert_eq!(reg.register(ambiguous), Err(SchemaError::InvalidDefault));
    assert!(reg.all_ids().is_empty());
}

#[test]
fn registry_definition_by_id() {
    let reg = registry();
    let d = reg.definition(BundleId::Worldspawn).unwrap();
    assert_eq!(d.name, "BspWorldspawn");
    assert_eq!(d.fields[0].name, "_dist");
    assert!(Registry::new().definition(BundleId::Light).is_none());
}

#[test]
fn decimal_accepts_sign_and_bare_point() {
    assert_eq!(decode_decimal(&chars("+1")), Some(dec(false, 1, 0)));
    assert_eq!(decode_decimal(&chars("1.")), Some(dec(false, 1, 0)));
    assert_eq!(decode_decimal(&chars(".5")), Some(dec(false, 5, 1)));
    assert_eq!(decode_decimal(&chars("-.25")), Some(dec(true, 25, 2)));
}

#[test]
fn negative_color_channels_stay_on_the_byte_scale() {
    let c = decode_value(ScalarKind::Color, "-1 0 0").unwrap();
    let zero = dec(false, 0, 0);
    assert_eq!(c, Value::Color(Color { r: dec(true, 1, 0), g: zero, b: zero }));
    assert_eq!(encode_value(&c), "-1 0 0");
}

#[test]
fn carriage_return_counts_as_whitespace() {
    let a = decode_value(ScalarKind::Color, "255 255 255\r\n").unwrap();
    let b = decode_value(ScalarKind::Color, "1 1 1").unwrap();
    assert_eq!(a, b);
}

#[test]
fn one_malformed_field_gives_exactly_one_error() {
    let reg = registry();
    let input = pairs(&[("_minlight", "abc"), ("_phong", "1")]);
    let (e, errs) = decode_entity(&reg, &input, &vec![BundleId::SolidEntity]);
    assert_eq!(errs.len(), 1);
    assert_eq!(errs[0].field, "_minlight");
    assert_eq!(errs[0].text, "abc");
    assert_eq!(errs[0].expected, ScalarKind::Number);
    assert_eq!(errs[0].kind, DecodeErrorKind::FieldDecodeError);
    let solid = BspSolidEntity::definition();
    for (i, f) in solid.fields.iter().enumerate() {
        let expected = if f.name == "_phong" { Value::Flag(true) } else { f.default.clone() };
        assert_eq!(e.bundles[0].values[i], expected, "{}", f.name);
    }
}

#[test]
fn encoding_light_defaults_emits_exactly_the_set_fields() {
    let reg = registry();
    let mut e = Entity::new();
    e.attach(&reg, BundleId::Light);
    let out = encode_entity(&reg, &e);
    let keys: Vec<&str> = out.iter().map(|(k, _)| k.as_str()).collect();
    assert_eq!(
        keys,
        vec![
            "light", "wait", "delay", "_color", "mangle", "angle", "_softangle", "style",
            "_anglescale", "_deviance", "_samples", "_surface_offset", "_surface_spotlight",
            "_project_fov", "_bouncescale", "_sun",
        ]
    );
    let get = |k: &str| out.iter().find(|(key, _)| key == k).unwrap().1.clone();
    assert_eq!(get("delay"), "0");
    assert_eq!(get("_color"), "255 255 255");
    assert_eq!(get("_samples"), "16");
    assert_eq!(get("mangle"), "0 0 0");
    assert!(out.iter().all(|(_, v)| !v.is_empty()));
}

#[test]
fn light_bundle_starts_with_its_declared_fields() {
    let reg = registry();
    let light = reg.definition(BundleId::Light).unwrap();
    assert_eq!(light.fields.len(), 25);
    assert_eq!(light.fields[0].name, "light");
    assert_eq!(light.fields[0].default, Value::Number(dec(false, 300, 0)));
    assert_eq!(light.fields[1].name, "wait");
    assert_eq!(light.fields[2].name, "delay");
    assert_eq!(light.fields[2].kind, ScalarKind::Attenuation);
    assert_eq!(light.fields[2].default, Value::Attenuation(BspLightAttenuation::Linear));
    assert_eq!(reg.definition(BundleId::SolidEntity).unwrap().fields.len(), 14);
    assert_eq!(reg.definition(BundleId::Worldspawn).unwrap().fields.len(), 25);
}

#[test]
fn numbers_accept_an_exponent() {
    assert_eq!(decode_number(&chars("1e5")), Some(dec(false, 100000, 0)));
    assert_eq!(decode_number(&chars("2.5E-3")), Some(dec(false, 25, 4)));
    assert_eq!(decode_number(&chars("-1.5e1")), Some(dec(true, 15, 0)));
    assert_eq!(decode_number(&chars("0e99999")), Some(dec(false, 0, 0)));
    assert_eq!(decode_number(&chars("0.5")), Some(dec(false, 5, 1)));
    for t in ["1e", "e5", "1e2.5", "1e2e3", "1e30"] {
        assert_eq!(decode_number(&chars(t)), None, "{t}");
    }
    assert_eq!(decode_value(ScalarKind::Number, "3e2"), Ok(Value::Number(dec(false, 300, 0))));
    assert_eq!(decode_value(ScalarKind::Count, "3e2"), Err(DecodeErrorKind::FieldDecodeError));
    let c = decode_value(ScalarKind::Color, "2.55e2 0 0").unwrap();
    assert_eq!(encode_value(&c), "255 0 0");
}
