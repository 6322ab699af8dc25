use spine::bone::{Bone, BoneSetup, TransformMode};
use spine::color::{parse_color, white};
use spine::error::{HexError, SkeletonError};
use spine::json::{curve_from_name, white_color, AttachmentType, CurveName, Slot as SlotDef};
use spine::skin::{attachment_kind, AttachmentError, AttachmentKind};
use spine::slot::Slot;
use spine::util::{bone_index, slot_index, sorted_unique};

fn setup(name: &str, parent: Option<&str>) -> BoneSetup<u8> {
    BoneSetup {
        name: name.to_string(),
        parent: parent.map(|p| p.to_string()),
        srt: 0,
        inherit_scale: None,
        inherit_rotation: None,
        transform: None,
    }
}

fn bones(names: &[(&str, Option<&str>)]) -> Vec<Bone<u8>> {
    let mut out: Vec<Bone<u8>> = Vec::new();
    for (n, p) in names {
        let b = Bone::from_json(setup(n, *p), &out).ok().unwrap();
        out.push(b);
    }
    out
}

#[test]
fn color_reads_rgba_hex() {
    assert_eq!(parse_color("FF8000C0"), Ok([255, 128, 0, 192]));
    assert_eq!(parse_color("ff8000c0"), Ok([255, 128, 0, 192]));
}

#[test]
fn color_skips_blanks_like_the_decoder() {
    assert_eq!(parse_color("FF 80 00 C0"), Ok([255, 128, 0, 192]));
}

#[test]
fn color_rejects_bad_character() {
    assert_eq!(
        parse_color("FFx000C0"),
        Err(SkeletonError::InvalidColor(HexError::InvalidHexCharacter('x', 2)))
    );
}

#[test]
fn color_rejects_odd_digit_count() {
    assert_eq!(parse_color("FFF"), Err(SkeletonError::InvalidColor(HexError::InvalidHexLength)));
}

#[test]
fn color_rejects_wrong_byte_count() {
    assert_eq!(parse_color("FFFFFF"), Err(SkeletonError::InvalidColor(HexError::InvalidHexLength)));
    assert_eq!(parse_color(""), Err(SkeletonError::InvalidColor(HexError::InvalidHexLength)));
}

#[test]
fn default_colors_are_white() {
    assert_eq!(white(), [255, 255, 255, 255]);
    assert_eq!(white_color(), "FFFFFFFF");
}

#[test]
fn transform_modes_by_name() {
    assert_eq!(TransformMode::from_name("onlyTranslation"), TransformMode::OnlyTranslation);
    assert_eq!(TransformMode::from_name("noRotationOrReflection"), TransformMode::NoRotationOrReflection);
    assert_eq!(TransformMode::from_name("noScaleOrReflection"), TransformMode::NoScaleOrReflection);
    assert_eq!(TransformMode::from_name("noScale"), TransformMode::NoScale);
    assert_eq!(TransformMode::from_name("normal"), TransformMode::Normal);
    assert_eq!(TransformMode::from_name("anything"), TransformMode::Normal);
}

#[test]
fn attachment_types_by_name() {
    assert_eq!(AttachmentType::from_name("region"), Some(AttachmentType::Region));
    assert_eq!(AttachmentType::from_name("mesh"), Some(AttachmentType::Mesh));
    assert_eq!(AttachmentType::from_name("regionsequence"), Some(AttachmentType::RegionSequence));
    assert_eq!(AttachmentType::from_name("boundingbox"), Some(AttachmentType::BoundingBox));
    assert_eq!(AttachmentType::from_name("skinnedmesh"), None);
}

#[test]
fn attachment_kinds_default_to_region() {
    assert_eq!(attachment_kind(None), Ok(AttachmentKind::Region));
    assert_eq!(attachment_kind(Some(AttachmentType::Mesh)), Ok(AttachmentKind::Mesh));
    assert_eq!(attachment_kind(Some(AttachmentType::BoundingBox)), Err(AttachmentError::UnknownType));
}

#[test]
fn curve_names() {
    assert_eq!(curve_from_name("linear"), Some(CurveName::Linear));
    assert_eq!(curve_from_name("stepped"), Some(CurveName::Stepped));
    assert_eq!(curve_from_name("bezier"), None);
}

#[test]
fn bone_parent_resolves_to_earlier_bone() {
    let bs = bones(&[("root", None), ("hip", Some("root")), ("hand", Some("hip"))]);
    assert_eq!(bs[0].parent_index, None);
    assert_eq!(bs[1].parent_index, Some(0));
    assert_eq!(bs[2].parent_index, Some(1));
    assert!(bs[2].inherit_rotation && bs[2].inherit_scale);
    assert_eq!(bs[2].transform_mode, TransformMode::Normal);
}

#[test]
fn bone_with_unknown_parent_is_refused() {
    let bs = bones(&[("root", None)]);
    let r = Bone::from_json(setup("hand", Some("arm")), &bs);
    assert_eq!(r.err(), Some(SkeletonError::BoneNotFound("arm".to_string())));
}

#[test]
fn bone_flags_and_mode_are_kept() {
    let mut s = setup("b", None);
    s.inherit_scale = Some(false);
    s.transform = Some("noScale".to_string());
    let b = Bone::from_json(s, &[]).ok().unwrap();
    assert!(!b.inherit_scale);
    assert!(b.inherit_rotation);
    assert_eq!(b.transform_mode, TransformMode::NoScale);
}

#[test]
fn bone_index_finds_first_match() {
    let bs = bones(&[("a", None), ("b", Some("a")), ("c", Some("a"))]);
    assert_eq!(bone_index("c", &bs), Ok(2));
    assert_eq!(bone_index("z", &bs), Err(SkeletonError::BoneNotFound("z".to_string())));
}

#[test]
fn slot_from_json_resolves_bone_and_color() {
    let bs = bones(&[("root", None), ("arm", Some("root"))]);
    let def = SlotDef {
        name: "sleeve".to_string(),
        bone: "arm".to_string(),
        color: Some("00FF00FF".to_string()),
        attachment: Some("sleeve".to_string()),
    };
    let s = Slot::from_json(def, &bs).ok().unwrap();
    assert_eq!(s.bone_index, 1);
    assert_eq!(s.color, [0, 255, 0, 255]);
    assert_eq!(s.attachment, Some("sleeve".to_string()));
    let plain = SlotDef { name: "p".to_string(), bone: "root".to_string(), color: None, attachment: None };
    assert_eq!(Slot::from_json(plain, &bs).ok().unwrap().color, [255, 255, 255, 255]);
}

#[test]
fn slot_errors() {
    let bs = bones(&[("root", None)]);
    let missing = SlotDef { name: "s".to_string(), bone: "leg".to_string(), color: None, attachment: None };
    assert_eq!(Slot::from_json(missing, &bs).err(), Some(SkeletonError::BoneNotFound("leg".to_string())));
    let bad = SlotDef { name: "s".to_string(), bone: "root".to_string(), color: Some("FFFFFF".to_string()), attachment: None };
    assert_eq!(
        Slot::from_json(bad, &bs).err(),
        Some(SkeletonError::InvalidColor(HexError::InvalidHexLength))
    );
}

#[test]
fn slot_index_lookup() {
    let bs = bones(&[("root", None)]);
    let mut slots = Vec::new();
    for n in ["a", "b"] {
        let def = SlotDef { name: n.to_string(), bone: "root".to_string(), color: None, attachment: None };
        slots.push(Slot::from_json(def, &bs).ok().unwrap());
    }
    assert_eq!(slot_index("b", &slots), Ok(1));
    assert_eq!(slot_index("x", &slots), Err(SkeletonError::SlotNotFound("x".to_string())));
}

#[test]
fn sorted_unique_names() {
    let names = vec!["b".to_string(), "a".to_string(), "b".to_string(), "c".to_string()];
    assert_eq!(sorted_unique(names), vec!["a".to_string(), "b".to_string(), "c".to_string()]);
}

#[test]
fn error_messages() {
    assert_eq!(SkeletonError::SkinNotFound("x".to_string()).message(), "skin cannot be found in skeleton skins");
}
