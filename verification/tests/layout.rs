use abner::geometry::{clamp_center, fit_rect, halve, view_half, zoom_rect};
use abner::items::RectPx;
use abner::palette::Ink;
use abner::units::{clamp, div_round, div_round_away, max, min, scale, ONE};

fn rect(x: i64, y: i64, w: i64, h: i64) -> RectPx {
    RectPx { x, y, w, h }
}

#[test]
fn rounding_goes_to_the_nearest() {
    assert_eq!(div_round(7, 2), 4);
    assert_eq!(div_round(-7, 2), -3);
    assert_eq!(div_round_away(-7, 2), -4);
    assert_eq!(div_round(10, 3), 3);
    assert_eq!(div_round(11, 3), 4);
    assert_eq!(scale(1_000, ONE + ONE / 2), 1_500);
    assert_eq!((min(1, 2), max(1, 2)), (1, 2));
    assert_eq!([clamp(-1, 0, 5), clamp(9, 0, 5), clamp(3, 0, 5)], [0, 5, 3]);
    assert_eq!([halve(5), halve(-5), halve(4)], [3, -2, 2]);
}

#[test]
fn a_picture_fits_its_cell() {
    // Letterbox above and below, then at the sides.
    assert_eq!(
        fit_rect((320, 180), rect(0, 0, 128_000_000, 80_000_000)),
        rect(0, 4_000_000, 128_000_000, 72_000_000)
    );
    assert_eq!(
        fit_rect((100, 100), rect(5_000_000, 0, 64_000_000, 36_000_000)),
        rect(19_000_000, 0, 36_000_000, 36_000_000)
    );
}

#[test]
fn zooming_holds_the_middle() {
    let base = rect(0, 4_000_000, 128_000_000, 72_000_000);
    assert_eq!(zoom_rect(base, ONE, (ONE / 2, ONE / 2)), base);
    assert_eq!(
        zoom_rect(base, 2 * ONE, (ONE / 2, ONE / 2)),
        rect(-64_000_000, -32_000_000, 256_000_000, 144_000_000)
    );
    assert_eq!(zoom_rect(base, 2 * ONE, (ONE / 4, ONE / 4)), rect(0, 4_000_000, 256_000_000, 144_000_000));
    assert_eq!(view_half(4 * ONE), ONE / 8);
    assert_eq!(clamp_center(0, 4 * ONE), ONE / 8);
    assert_eq!(clamp_center(ONE as i128, 4 * ONE), ONE - ONE / 8);
    assert_eq!(clamp_center(0, ONE), ONE / 2);
}

#[test]
fn colours_fade_by_their_alpha() {
    let c = Ink::Accent.color();
    assert_eq!((c.r, c.g, c.b, c.a), (82_000_000, 502_000_000, 871_000_000, ONE));
    let half = Ink::AccentEdge.fade(ONE / 2);
    assert_eq!(half.a, 140_000_000);
    assert_eq!(half.r, c.r);
}
