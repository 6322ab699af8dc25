use spine::curve::{CurveTimeline, CurveTimelines, Sample, TimelineCurve};
use spine::timeline::{AttachmentKeyframe, SlotTimeline};

/// Instants in milliseconds serve as keys: later means larger.
fn ms(seconds: f32) -> u32 {
    (seconds * 1000.0) as u32
}

fn key(time: f32, curve: TimelineCurve<()>, value: f32) -> CurveTimeline<f32, ()> {
    CurveTimeline { time: ms(time), curve, value }
}

fn lerp(tl: &CurveTimelines<f32, ()>, t: f32) -> Option<f32> {
    match tl.locate(ms(t)) {
        None => None,
        Some(Sample::Key(i)) => Some(tl.timelines[i].value),
        Some(Sample::Blend(i)) => {
            let (a, b) = (&tl.timelines[i], &tl.timelines[i + 1]);
            let p = (ms(t) - a.time) as f32 / (b.time - a.time) as f32;
            Some(a.value + p * (b.value - a.value))
        }
    }
}

#[test]
fn empty_timeline_gives_nothing() {
    let tl: CurveTimelines<f32, ()> = CurveTimelines::new();
    assert_eq!(tl.locate(0), None);
}

#[test]
fn before_first_keyframe_gives_nothing() {
    let tl = CurveTimelines { timelines: vec![key(1.0, TimelineCurve::CurveLinear, 3.0)] };
    assert_eq!(tl.locate(ms(0.5)), None);
    assert_eq!(tl.locate(ms(1.0)), Some(Sample::Key(0)));
}

#[test]
fn linear_translate_halfway() {
    let tl = CurveTimelines {
        timelines: vec![key(0.0, TimelineCurve::CurveLinear, 0.0), key(1.0, TimelineCurve::CurveLinear, 10.0)],
    };
    assert_eq!(tl.locate(ms(0.5)), Some(Sample::Blend(0)));
    assert_eq!(lerp(&tl, 0.5), Some(5.0));
}

#[test]
fn clamped_after_last_keyframe() {
    let tl = CurveTimelines {
        timelines: vec![key(0.0, TimelineCurve::CurveLinear, 0.0), key(1.0, TimelineCurve::CurveLinear, 10.0)],
    };
    assert_eq!(tl.locate(ms(1.0)), Some(Sample::Key(1)));
    assert_eq!(tl.locate(ms(7.0)), Some(Sample::Key(1)));
    assert_eq!(lerp(&tl, 7.0), Some(10.0));
}

#[test]
fn stepped_holds_earlier_value() {
    let tl = CurveTimelines {
        timelines: vec![
            key(0.0, TimelineCurve::CurveStepped, 2.0),
            key(1.0, TimelineCurve::CurveLinear, 8.0),
            key(2.0, TimelineCurve::CurveLinear, 4.0),
        ],
    };
    assert_eq!(tl.locate(ms(0.25)), Some(Sample::Key(0)));
    assert_eq!(lerp(&tl, 0.999), Some(2.0));
    assert_eq!(tl.locate(ms(1.5)), Some(Sample::Blend(1)));
}

#[test]
fn bezier_keyframe_blends() {
    let tl = CurveTimelines {
        timelines: vec![key(0.0, TimelineCurve::CurveBezier(()), 0.0), key(1.0, TimelineCurve::CurveLinear, 1.0)],
    };
    assert_eq!(tl.locate(ms(0.3)), Some(Sample::Blend(0)));
}

#[test]
fn locating_twice_gives_the_same_answer() {
    let tl = CurveTimelines {
        timelines: vec![key(0.0, TimelineCurve::CurveLinear, 0.0), key(1.0, TimelineCurve::CurveLinear, 10.0)],
    };
    for t in [0.0f32, 0.3, 0.5, 1.0, 2.0] {
        assert_eq!(tl.locate(ms(t)), tl.locate(ms(t)));
        assert_eq!(lerp(&tl, t), lerp(&tl, t));
    }
}

fn switches() -> SlotTimeline<()> {
    SlotTimeline {
        attachment: vec![
            AttachmentKeyframe { time: ms(0.5), name: Some("open".to_string()) },
            AttachmentKeyframe { time: ms(1.0), name: None },
            AttachmentKeyframe { time: ms(2.0), name: Some("closed".to_string()) },
        ],
        color: (),
    }
}

#[test]
fn attachment_switch_is_a_step_function() {
    let tl = switches();
    assert_eq!(tl.interpolate_attachment(ms(0.2)), None);
    assert_eq!(tl.interpolate_attachment(ms(0.5)), Some(Some(&"open".to_string())));
    assert_eq!(tl.interpolate_attachment(ms(0.9)), Some(Some(&"open".to_string())));
    assert_eq!(tl.interpolate_attachment(ms(1.5)), Some(None));
    assert_eq!(tl.interpolate_attachment(ms(9.0)), Some(Some(&"closed".to_string())));
    assert_eq!(tl.active_keyframe(ms(1.0)), Some(1));
}

#[test]
fn attachment_names_of_switches() {
    assert_eq!(switches().get_attachment_names(), vec!["open".to_string(), "closed".to_string()]);
}

#[test]
fn single_switch_timeline() {
    let tl = SlotTimeline::from_timelines(Some("held".to_string()), 0, 7u8);
    assert_eq!(tl.attachment.len(), 1);
    assert_eq!(tl.color, 7);
    assert_eq!(tl.interpolate_attachment(5), Some(Some(&"held".to_string())));
}
