use i3_launchpad::config::RGBColor;
use i3_launchpad::config::Side;
use i3_launchpad::ui::rotate_coords;
use i3_launchpad::ui::unrotate_coords;
use i3_launchpad::ui::ButtonSide;
use i3_launchpad::ui::Event;
use i3_launchpad::ui::LaunchpadBuffer;
use i3_launchpad::ui::Location;

const SIDES: [Side; 4] = [Side::Bottom, Side::Top, Side::Left, Side::Right];

const RED: RGBColor = RGBColor(255, 0, 0);
const GREEN: RGBColor = RGBColor(0, 255, 0);
const BLUE: RGBColor = RGBColor(0, 0, 255);
const BLACK: RGBColor = RGBColor(0, 0, 0);

fn color_of(buffer: &LaunchpadBuffer, location: Location) -> RGBColor {
    let writes = buffer.render();
    let found: Vec<&(Location, RGBColor)> =
        writes.iter().filter(|write| write.0 == location).collect();
    assert_eq!(found.len(), 1);
    found[0].1
}

#[test]
fn rotate_bottom_is_identity() {
    assert_eq!(rotate_coords((0, 0), &Side::Bottom), (0, 0));
    assert_eq!(rotate_coords((3, 5), &Side::Bottom), (3, 5));
    assert_eq!(rotate_coords((7, 7), &Side::Bottom), (7, 7));
}

#[test]
fn rotate_top_turns_half_way() {
    assert_eq!(rotate_coords((0, 0), &Side::Top), (7, 7));
    assert_eq!(rotate_coords((3, 5), &Side::Top), (4, 2));
    assert_eq!(rotate_coords((7, 0), &Side::Top), (0, 7));
}

#[test]
fn rotate_left_turns_a_quarter() {
    assert_eq!(rotate_coords((0, 0), &Side::Left), (0, 7));
    assert_eq!(rotate_coords((3, 5), &Side::Left), (5, 4));
    assert_eq!(rotate_coords((7, 0), &Side::Left), (0, 0));
}

#[test]
fn rotate_right_turns_a_quarter_the_other_way() {
    assert_eq!(rotate_coords((0, 0), &Side::Right), (7, 0));
    assert_eq!(rotate_coords((3, 5), &Side::Right), (2, 3));
    assert_eq!(rotate_coords((7, 0), &Side::Right), (7, 7));
}

#[test]
fn unrotate_examples() {
    assert_eq!(unrotate_coords((3, 5), &Side::Bottom), (3, 5));
    assert_eq!(unrotate_coords((4, 2), &Side::Top), (3, 5));
    assert_eq!(unrotate_coords((5, 4), &Side::Left), (3, 5));
    assert_eq!(unrotate_coords((2, 3), &Side::Right), (3, 5));
}

#[test]
fn unrotate_undoes_rotate_everywhere() {
    for side in SIDES.iter() {
        for x in 0..8u8 {
            for y in 0..8u8 {
                let rotated = rotate_coords((x, y), side);
                assert!(rotated.0 < 8 && rotated.1 < 8);
                assert_eq!(unrotate_coords(rotated, side), (x, y));
                let logical = unrotate_coords((x, y), side);
                assert!(logical.0 < 8 && logical.1 < 8);
                assert_eq!(rotate_coords(logical, side), (x, y));
            }
        }
    }
}

#[test]
fn rotate_is_one_to_one() {
    for side in SIDES.iter() {
        let mut seen = [[false; 8]; 8];
        for x in 0..8u8 {
            for y in 0..8u8 {
                let (px, py) = rotate_coords((x, y), side);
                assert!(!seen[px as usize][py as usize]);
                seen[px as usize][py as usize] = true;
            }
        }
        assert!(seen.iter().all(|row| row.iter().all(|cell| *cell)));
    }
}

#[test]
fn location_range() {
    assert!(Location::Pad(0, 0).in_range());
    assert!(Location::Pad(7, 7).in_range());
    assert!(!Location::Pad(8, 0).in_range());
    assert!(!Location::Pad(0, 8).in_range());
    assert!(Location::Button(7, ButtonSide::Top).in_range());
    assert!(Location::Button(0, ButtonSide::Right).in_range());
    assert!(!Location::Button(8, ButtonSide::Right).in_range());
    assert!(!Location::Button(255, ButtonSide::Top).in_range());
    assert_ne!(Event::Press(Location::Pad(0, 0)), Event::Release(Location::Pad(0, 0)));
}

#[test]
fn default_buffer_is_black() {
    let writes = LaunchpadBuffer::default().render();
    assert_eq!(writes.len(), 80);
    assert!(writes.iter().all(|write| write.1 == BLACK));
}

#[test]
fn render_lists_every_location_in_order() {
    let writes = LaunchpadBuffer::default().render();
    assert_eq!(writes.len(), 80);
    for y in 0..8usize {
        for x in 0..8usize {
            assert_eq!(writes[8 * y + x].0, Location::Pad(x as u8, y as u8));
        }
    }
    for i in 0..8usize {
        assert_eq!(writes[64 + i].0, Location::Button(i as u8, ButtonSide::Top));
        assert_eq!(writes[72 + i].0, Location::Button(i as u8, ButtonSide::Right));
    }
}

#[test]
fn set_changes_one_location() {
    let mut buffer = LaunchpadBuffer::default();
    buffer.set(&Location::Pad(2, 5), &RED);
    let writes = buffer.render();
    assert_eq!(writes[8 * 5 + 2], (Location::Pad(2, 5), RED));
    for (i, write) in writes.iter().enumerate() {
        if i != 8 * 5 + 2 {
            assert_eq!(write.1, BLACK);
        }
    }
    assert_eq!(color_of(&buffer, Location::Pad(5, 2)), BLACK);
}

#[test]
fn set_reaches_pads_and_both_strips() {
    let mut buffer = LaunchpadBuffer::default();
    buffer.set(&Location::Pad(7, 0), &RED);
    buffer.set(&Location::Button(3, ButtonSide::Top), &GREEN);
    buffer.set(&Location::Button(3, ButtonSide::Right), &BLUE);
    let writes = buffer.render();
    assert_eq!(writes[7], (Location::Pad(7, 0), RED));
    assert_eq!(writes[64 + 3], (Location::Button(3, ButtonSide::Top), GREEN));
    assert_eq!(writes[72 + 3], (Location::Button(3, ButtonSide::Right), BLUE));
    assert_eq!(writes.iter().filter(|write| write.1 != BLACK).count(), 3);
}

#[test]
fn set_twice_keeps_the_later_color() {
    let mut buffer = LaunchpadBuffer::default();
    buffer.set(&Location::Pad(1, 1), &RED);
    buffer.set(&Location::Pad(1, 1), &BLUE);
    assert_eq!(color_of(&buffer, Location::Pad(1, 1)), BLUE);
}

#[test]
fn buffers_from_the_same_writes_are_equal_in_any_order() {
    let writes = [
        (Location::Pad(0, 0), RED),
        (Location::Pad(7, 7), GREEN),
        (Location::Button(0, ButtonSide::Top), BLUE),
        (Location::Button(7, ButtonSide::Right), RED),
        (Location::Pad(3, 4), BLUE),
    ];
    let mut forward = LaunchpadBuffer::default();
    for (location, color) in writes.iter() {
        forward.set(location, color);
    }
    let mut backward = LaunchpadBuffer::default();
    for (location, color) in writes.iter().rev() {
        backward.set(location, color);
    }
    assert!(forward == backward);
    assert!(backward == forward);
    assert!(forward == forward.clone());
    assert_eq!(forward.render(), backward.render());
}

#[test]
fn buffers_with_one_differing_location_are_unequal() {
    let base = LaunchpadBuffer::default();
    for i in 0..8u8 {
        for j in 0..8u8 {
            let mut other = LaunchpadBuffer::default();
            other.set(&Location::Pad(i, j), &RGBColor(0, 0, 1));
            assert!(base != other);
            assert!(other != base);
        }
        let mut top = LaunchpadBuffer::default();
        top.set(&Location::Button(i, ButtonSide::Top), &RGBColor(0, 1, 0));
        assert!(base != top);
        let mut right = LaunchpadBuffer::default();
        right.set(&Location::Button(i, ButtonSide::Right), &RGBColor(1, 0, 0));
        assert!(base != right);
        assert!(top != right);
    }
}

#[test]
fn conflicting_writes_do_not_commute() {
    let mut first = LaunchpadBuffer::default();
    first.set(&Location::Pad(0, 0), &RED);
    first.set(&Location::Pad(0, 0), &BLUE);
    let mut second = LaunchpadBuffer::default();
    second.set(&Location::Pad(0, 0), &BLUE);
    second.set(&Location::Pad(0, 0), &RED);
    assert!(first != second);
}

#[test]
fn default_buffers_are_equal() {
    assert!(LaunchpadBuffer::default() == LaunchpadBuffer::default());
}
