use ai_credit_status::color::{usage_color, StatusColor};
use ai_credit_status::number::Single;

fn color(ratio: f32) -> StatusColor {
    usage_color(Single::from_bits(ratio.to_bits()))
}

#[test]
fn usage_color_escalates_with_ratio() {
    assert_eq!(color(0.1), StatusColor::Success);
    assert_eq!(color(0.4), StatusColor::Warning);
    assert_eq!(color(0.6), StatusColor::Modified);
    assert_eq!(color(0.9), StatusColor::Error);
}

#[test]
fn colors_change_at_the_quarters() {
    assert_eq!(color(0.25), StatusColor::Warning);
    assert_eq!(color(0.24999999), StatusColor::Success);
    assert_eq!(color(0.5), StatusColor::Modified);
    assert_eq!(color(0.49999997), StatusColor::Warning);
    assert_eq!(color(0.75), StatusColor::Error);
    assert_eq!(color(0.74999994), StatusColor::Modified);
}

#[test]
fn shares_outside_the_range_take_the_outer_colors() {
    assert_eq!(color(-3.0), StatusColor::Success);
    assert_eq!(color(-0.0), StatusColor::Success);
    assert_eq!(color(f32::NEG_INFINITY), StatusColor::Success);
    assert_eq!(color(7.5), StatusColor::Error);
    assert_eq!(color(f32::INFINITY), StatusColor::Error);
    assert_eq!(color(f32::NAN), StatusColor::Error);
    assert_eq!(color(-f32::NAN), StatusColor::Error);
}

#[test]
fn colors_never_grow_calmer() {
    let order = |c: StatusColor| match c {
        StatusColor::Success => 0,
        StatusColor::Warning => 1,
        StatusColor::Modified => 2,
        StatusColor::Error => 3,
    };
    let mut last = 0;
    for step in 0..=1000 {
        let now = order(color(step as f32 / 1000.0));
        assert!(last <= now);
        last = now;
    }
}
