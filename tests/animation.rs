use spine::animation::{Animation, AnimationSetup, DrawOrderTimeline, EventKeyframe};
use spine::json::DrawOrderTimelineOffset;
use spine::bone::{Bone, BoneSetup};
use spine::error::SkeletonError;
use spine::json::Slot as SlotDef;
use spine::skeleton::{Document, Skeleton};
use spine::skin::{Attachment, MeshAttachment, RegionAttachment};
use spine::skin_animation::{find_attach, SkinAnimation, SpriteColor};
use spine::timeline::{AttachmentKeyframe, SlotTimeline};

#[derive(Clone, Copy, Debug, PartialEq)]
struct Pose {
    x: f32,
    y: f32,
    rot: f32,
}

type Track = Vec<(f32, f32)>;
type Doc = Document<Pose, (), Track, ()>;
type Sk = Skeleton<Pose, (), Track, ()>;

fn pose(x: f32, y: f32, rot: f32) -> Pose {
    Pose { x, y, rot }
}

fn bone(name: &str, parent: Option<&str>, p: Pose) -> BoneSetup<Pose> {
    BoneSetup {
        name: name.to_string(),
        parent: parent.map(|s| s.to_string()),
        srt: p,
        inherit_scale: None,
        inherit_rotation: None,
        transform: None,
    }
}

fn slot(name: &str, bone: &str, attachment: Option<&str>) -> SlotDef {
    SlotDef { name: name.to_string(), bone: bone.to_string(), color: None, attachment: attachment.map(|s| s.to_string()) }
}

fn region(name: Option<&str>) -> Attachment<Pose, ()> {
    Attachment::Region(RegionAttachment { name: name.map(|s| s.to_string()), srt: pose(0.0, 0.0, 0.0) })
}

fn at(track: &Track, t: f32) -> f32 {
    let mut v = track.first().map(|k| k.1).unwrap_or(0.0);
    for w in track.windows(2) {
        if t >= w[0].0 && t < w[1].0 {
            let p = (t - w[0].0) / (w[1].0 - w[0].0);
            return w[0].1 + p * (w[1].1 - w[0].1);
        }
        if t >= w[1].0 {
            v = w[1].1;
        }
    }
    v
}

fn no_slots() -> Vec<(String, SlotTimeline<()>)> {
    Vec::new()
}

fn document() -> Doc {
    Document {
        bones: vec![bone("root", None, pose(0.0, 0.0, 0.0)), bone("hand", Some("root"), pose(10.0, 0.0, 0.0))],
        slots: vec![slot("body", "root", Some("body")), slot("glove", "hand", Some("glove")), slot("empty", "root", None)],
        skins: vec![
            (
                "default".to_string(),
                vec![
                    ("body".to_string(), vec![("body".to_string(), region(None))]),
                    ("glove".to_string(), vec![("glove".to_string(), region(None)), ("fist".to_string(), region(None))]),
                ],
            ),
            ("red".to_string(), vec![("glove".to_string(), vec![("glove".to_string(), region(Some("red-glove")))])]),
        ],
        animations: vec![
            (
                "turn".to_string(),
                AnimationSetup { bones: vec![("root".to_string(), vec![(0.0, 90.0)])], slots: no_slots(), events: Vec::new(), draworder: Vec::new(), duration: 0 },
            ),
            (
                "wave".to_string(),
                AnimationSetup {
                    bones: vec![("hand".to_string(), vec![(0.0, 0.0)]), ("root".to_string(), vec![(0.0, 20.0)])],
                    slots: vec![(
                        "glove".to_string(),
                        SlotTimeline {
                            attachment: vec![
                                AttachmentKeyframe { time: 0, name: Some("fist".to_string()) },
                                AttachmentKeyframe { time: 1000, name: None },
                            ],
                            color: (),
                        },
                    )],
                    events: Vec::new(),
                    draworder: Vec::new(),
                    duration: 2000,
                },
            ),
        ],
    }
}

fn skeleton() -> Sk {
    Skeleton::from_json(document()).ok().unwrap()
}

#[test]
fn skeleton_resolves_names() {
    let sk = skeleton();
    assert_eq!(sk.bones.len(), 2);
    assert_eq!(sk.bones[1].parent_index, Some(0));
    assert_eq!(sk.slots[1].bone_index, 1);
    assert_eq!(sk.skins[1].1.slots[0].0, 1);
    assert_eq!(sk.get_skins_names(), vec!["default".to_string(), "red".to_string()]);
    assert_eq!(sk.get_animations_names(), vec!["turn".to_string(), "wave".to_string()]);
}

#[test]
fn animation_bones_are_ordered_by_index() {
    let sk = skeleton();
    let wave = &sk.animations[1].1;
    assert_eq!(wave.bones.iter().map(|b| b.0).collect::<Vec<_>>(), vec![0, 1]);
    assert_eq!(wave.bones[0].1, vec![(0.0, 20.0)]);
    assert_eq!(wave.slots[0].0, 1);
    assert_eq!(wave.duration, 2000);
}

#[test]
fn skeleton_refuses_unknown_parent() {
    let mut doc = document();
    doc.bones[1].parent = Some("spine".to_string());
    assert_eq!(Skeleton::from_json(doc).err(), Some(SkeletonError::BoneNotFound("spine".to_string())));
}

#[test]
fn skeleton_refuses_child_before_parent() {
    let mut doc = document();
    doc.bones.reverse();
    assert_eq!(Skeleton::from_json(doc).err(), Some(SkeletonError::BoneNotFound("root".to_string())));
}

#[test]
fn skeleton_refuses_unknown_skin_slot() {
    let mut doc = document();
    doc.skins[1].1[0].0 = "mitten".to_string();
    assert_eq!(Skeleton::from_json(doc).err(), Some(SkeletonError::SlotNotFound("mitten".to_string())));
}

#[test]
fn skeleton_refuses_unknown_animated_bone() {
    let mut doc = document();
    doc.animations[0].1.bones[0].0 = "tail".to_string();
    assert_eq!(Skeleton::from_json(doc).err(), Some(SkeletonError::BoneNotFound("tail".to_string())));
}

#[test]
fn skeleton_refuses_bad_slot_color() {
    let mut doc = document();
    doc.slots[0].color = Some("GG000000".to_string());
    assert!(matches!(Skeleton::from_json(doc).err(), Some(SkeletonError::InvalidColor(_))));
}

#[test]
fn lookups_report_missing_names() {
    let sk = skeleton();
    assert_eq!(sk.get_skin("blue").err(), Some(SkeletonError::SkinNotFound("blue".to_string())));
    assert_eq!(sk.get_animated_skin("blue", None).err(), Some(SkeletonError::SkinNotFound("blue".to_string())));
    assert_eq!(
        sk.get_animated_skin("red", Some("jump")).err(),
        Some(SkeletonError::AnimationNotFound("jump".to_string()))
    );
}

#[test]
fn missing_default_skin_is_reported() {
    let mut doc = document();
    doc.skins.remove(0);
    doc.skins[0].0 = "red".to_string();
    let sk: Sk = Skeleton::from_json(doc).ok().unwrap();
    assert_eq!(sk.get_animated_skin("red", None).err(), Some(SkeletonError::SkinNotFound("default".to_string())));
}

#[test]
fn attachment_falls_back_to_default_skin() {
    let sk = skeleton();
    let found = find_attach(&sk, 1, 0, 0, "body").unwrap();
    assert_eq!((found.skin, found.entry, found.item), (0, 0, 0));
    let own = find_attach(&sk, 1, 0, 1, "glove").unwrap();
    assert_eq!(own.skin, 1);
    assert!(find_attach(&sk, 1, 0, 1, "boot").is_none());
}

#[test]
fn attachment_names_for_preloading() {
    let sk = skeleton();
    assert_eq!(
        sk.get_attachments_names(),
        vec!["body".to_string(), "fist".to_string(), "glove".to_string(), "red-glove".to_string()]
    );
}

#[test]
fn slots_without_attachment_draw_nothing() {
    let sk = skeleton();
    let sa = sk.get_animated_skin("red", None).ok().unwrap();
    let sprites = sa.interpolate(&sk, 0).ok().unwrap();
    assert_eq!(sprites.len(), 2);
    assert_eq!(sprites[0].attachment, "body");
    assert_eq!(sprites[0].slot_index, 0);
    assert_eq!(sprites[1].attachment, "red-glove");
    assert_eq!(sprites[1].bone_index, 1);
    assert!(matches!(sprites[1].color, SpriteColor::Base([255, 255, 255, 255])));
}

#[test]
fn switched_attachment_and_hidden_slot() {
    let sk = skeleton();
    let sa = sk.get_animated_skin("default", Some("wave")).ok().unwrap();
    let early = sa.interpolate(&sk, 500).ok().unwrap();
    assert_eq!(early.len(), 2);
    assert_eq!(early[1].attachment, "fist");
    assert!(matches!(early[1].color, SpriteColor::Timeline(0)));
    // from 1 s on the switch hides nothing by name: the slot's own attachment stands
    let late = sa.interpolate(&sk, 1500).ok().unwrap();
    assert_eq!(late[1].attachment, "glove");
}

#[test]
fn slot_with_nothing_to_show_is_left_out() {
    let mut doc = document();
    doc.slots[1].attachment = None;
    let sk: Sk = Skeleton::from_json(doc).ok().unwrap();
    let sa = sk.get_animated_skin("default", Some("wave")).ok().unwrap();
    assert_eq!(sa.interpolate(&sk, 500).ok().unwrap().len(), 2);
    let late = sa.interpolate(&sk, 1500).ok().unwrap();
    assert_eq!(late.len(), 1);
    assert_eq!(late[0].attachment, "body");
}

#[test]
fn mesh_attachment_is_refused() {
    let mut doc = document();
    doc.skins[0].1[0].1[0].1 = Attachment::Mesh(MeshAttachment { name: None, mesh: () });
    let sk: Sk = Skeleton::from_json(doc).ok().unwrap();
    let sa = sk.get_animated_skin("default", None).ok().unwrap();
    assert_eq!(sa.interpolate(&sk, 0).err(), Some(SkeletonError::UnsupportedAttachment("body".to_string())));
}

fn world(sk: &Sk, sa: &SkinAnimation<Track, ()>, t: f32) -> Vec<Pose> {
    sa.get_bones_srts(
        sk,
        false,
        |b: &Bone<Pose>, tl: Option<&Track>| {
            let mut p = b.srt;
            if let Some(track) = tl {
                p.rot += at(track, t);
            }
            p
        },
        |parent: &Pose, local: Pose, b: &Bone<Pose>| {
            let (s, c) = parent.rot.to_radians().sin_cos();
            Pose {
                x: parent.x + c * local.x - s * local.y,
                y: parent.y + s * local.x + c * local.y,
                rot: local.rot + if b.inherit_rotation { parent.rot } else { 0.0 },
            }
        },
    )
}

#[test]
fn child_inherits_parent_rotation() {
    let sk = skeleton();
    let sa = sk.get_animated_skin("default", Some("turn")).ok().unwrap();
    let w = world(&sk, &sa, 0.0);
    assert!((w[1].x - 0.0).abs() < 1e-4);
    assert!((w[1].y - 10.0).abs() < 1e-4);
    assert_eq!(w[1].rot, 90.0);
}

#[test]
fn root_world_is_its_local_pose() {
    let sk = skeleton();
    let sa = sk.get_animated_skin("default", Some("turn")).ok().unwrap();
    assert_eq!(world(&sk, &sa, 0.0)[0], pose(0.0, 0.0, 90.0));
    let still = sk.get_animated_skin("default", None).ok().unwrap();
    assert_eq!(world(&sk, &still, 0.0)[0], pose(0.0, 0.0, 0.0));
    assert_eq!(world(&sk, &still, 0.0)[1], pose(10.0, 0.0, 0.0));
}

fn blend_from(current_time: f32, start_offset: f32, duration: f32) -> impl Fn(&Track, &Track) -> Track {
    move |a: &Track, b: &Track| vec![(0.0, at(a, current_time)), (duration, at(b, start_offset))]
}

#[test]
fn transition_blends_two_poses() {
    let a = Animation::<Track, ()> { bones: vec![(0usize, vec![(0.0f32, 0.0f32), (4.0, 0.0)])], slots: Vec::new(), events: Vec::new(), draworder: Vec::new(), duration: 4000 };
    let b = Animation::<Track, ()> { bones: vec![(0usize, vec![(0.0f32, 20.0f32)])], slots: Vec::new(), events: Vec::new(), draworder: Vec::new(), duration: 1000 };
    let sk = skeleton();
    let t = Animation::from_animations(&a.bones, &b, &sk.bones, 2000, 0, 1000, blend_from(2.0, 0.0, 1.0), || ());
    assert_eq!(t.bones.len(), 1);
    assert_eq!(t.bones[0].0, 0);
    assert_eq!(at(&t.bones[0].1, 0.0), 0.0);
    assert_eq!(at(&t.bones[0].1, 1.0), 20.0);
    assert_eq!(at(&t.bones[0].1, 0.5), 10.0);
    assert_eq!(t.duration, 1000);
}

#[test]
fn transition_keeps_bones_animated_by_one_side() {
    let a = Animation::<Track, ()> { bones: vec![(1usize, vec![(0.0f32, 5.0f32)])], slots: Vec::new(), events: Vec::new(), draworder: Vec::new(), duration: 0 };
    let b = Animation::<Track, ()> { bones: vec![(0usize, vec![(0.0f32, 7.0f32)])], slots: Vec::new(), events: Vec::new(), draworder: Vec::new(), duration: 0 };
    let sk = skeleton();
    let t = Animation::from_animations(&a.bones, &b, &sk.bones, 0, 0, 1000, blend_from(0.0, 0.0, 1.0), || ());
    assert_eq!(t.bones.iter().map(|e| e.0).collect::<Vec<_>>(), vec![0, 1]);
    assert_eq!(t.bones[0].1, vec![(0.0, 7.0), (1.0, 7.0)]);
    assert_eq!(t.bones[1].1, vec![(0.0, 5.0), (1.0, 5.0)]);
}

#[test]
fn transition_freezes_shown_attachment() {
    let sk = skeleton();
    let wave = &sk.animations[1].1;
    let t = Animation::from_animations(&sk.animations[0].1.bones, wave, &sk.bones, 500, 0, 1000, blend_from(0.5, 0.0, 1.0), || ());
    assert_eq!(t.slots.len(), 1);
    assert_eq!(t.slots[0].0, 1);
    assert_eq!(t.slots[0].1.attachment[0].name, Some("fist".to_string()));
}

#[test]
fn skeleton_transition_dresses_next_animation() {
    let sk = skeleton();
    let sa = sk
        .get_animated_skin_with_transiton("default", "wave", "turn", 0, 0, 1000, blend_from(0.0, 0.0, 1.0), || ())
        .ok()
        .unwrap();
    assert_eq!(sa.name, "wave");
    assert_eq!(sa.get_duration(), 2000);
    let tr = sa.transition_anim.as_ref().unwrap();
    assert_eq!(tr.animation.bones.len(), 2);
    assert_eq!(tr.bones, vec![Some(0), Some(1)]);
    assert_eq!(tr.animation.bones[0].1, vec![(0.0, 90.0), (1.0, 20.0)]);
    let err = sk.get_animated_skin_with_transiton("default", "wave", "jump", 0, 0, 1000, blend_from(0.0, 0.0, 1.0), || ());
    assert_eq!(err.err(), Some(SkeletonError::AnimationNotFound("jump".to_string())));
}

#[test]
fn transition_from_a_transition() {
    let sk = skeleton();
    let sa = sk
        .get_animated_skin_with_transiton("default", "wave", "turn", 0, 0, 1000, blend_from(0.0, 0.0, 1.0), || ())
        .ok()
        .unwrap();
    let next = sa
        .get_animated_skin_with_transiton(&sk, "default", "turn", 0, true, 0, 500, blend_from(0.0, 0.0, 0.5), || ())
        .ok()
        .unwrap();
    assert_eq!(next.name, "turn");
    let tr = next.transition_anim.as_ref().unwrap();
    assert_eq!(tr.animation.bones[0].1, vec![(0.0, 90.0), (0.5, 90.0)]);
}

#[test]
fn skin_lists_all_its_attachments() {
    let sk = skeleton();
    assert_eq!(sk.skins[0].1.attachments().len(), 3);
    assert_eq!(sk.skins[1].1.attachments().len(), 1);
}

#[test]
fn animation_errors_name_the_first_unresolved_key() {
    let mut doc = document();
    doc.animations[1].1.slots[0].0 = "cape".to_string();
    assert_eq!(Skeleton::from_json(doc).err(), Some(SkeletonError::SlotNotFound("cape".to_string())));
    let mut doc = document();
    doc.animations[1].1.slots[0].0 = "cape".to_string();
    doc.animations[1].1.bones[1].0 = "tail".to_string();
    assert_eq!(Skeleton::from_json(doc).err(), Some(SkeletonError::BoneNotFound("tail".to_string())));
}

#[test]
fn slot_errors_come_before_skin_errors() {
    let mut doc = document();
    doc.skins[1].1[0].0 = "mitten".to_string();
    doc.slots[2].bone = "spine".to_string();
    assert_eq!(Skeleton::from_json(doc).err(), Some(SkeletonError::BoneNotFound("spine".to_string())));
}

#[test]
fn transition_carries_events_and_draw_order() {
    let a = Animation::<Track, ()> { bones: Vec::new(), slots: Vec::new(), events: Vec::new(), draworder: Vec::new(), duration: 0 };
    let b = Animation::<Track, ()> {
        bones: Vec::new(),
        slots: Vec::new(),
        events: vec![EventKeyframe { time: 5, name: "step".to_string(), int: Some(1), float_bits: None, string: None }],
        draworder: vec![DrawOrderTimeline {
            time: 7,
            offsets: vec![DrawOrderTimelineOffset { slot: "body".to_string(), offset: 2 }],
        }],
        duration: 0,
    };
    let sk = skeleton();
    let t = Animation::from_animations(&a.bones, &b, &sk.bones, 0, 0, 1000, blend_from(0.0, 0.0, 1.0), || ());
    assert_eq!(t.events.len(), 1);
    assert_eq!(t.events[0].name, "step");
    assert_eq!(t.events[0].int, Some(1));
    assert_eq!(t.draworder[0].time, 7);
    assert_eq!(t.draworder[0].offsets[0].slot, "body");
    assert_eq!(t.draworder[0].offsets[0].offset, 2);
}
