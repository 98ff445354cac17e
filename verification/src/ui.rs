//! What the device shows: the places on it, the transform between the logical
//! grid and the mounted device, and the buffer of colours.

use vstd::prelude::*;
use vstd::std_specs::cmp::PartialEqSpec;
use vstd::std_specs::cmp::PartialEqSpecImpl;

use crate::config::RGBColor;
use crate::config::Side;

verus! {

/// The strip that a round button belongs to.
#[derive(Debug, Clone, Copy, PartialEq, Eq, Structural)]
pub enum ButtonSide {
    Top,
    Right,
}

/// One addressable point of the device: a pad of the square grid by column
/// and row, or a button of one of the two strips by its index.
#[derive(Debug, Clone, Copy, PartialEq, Eq, Structural)]
pub enum Location {
    Pad(u8, u8),
    Button(u8, ButtonSide),
}

/// What the device reports of a location.
#[derive(Debug, Clone, Copy, PartialEq, Eq, Structural)]
pub enum Event {
    Press(Location),
    Release(Location),
}

impl Location {
    /// Every index of a location on the device is below eight.
    pub open spec fn spec_in_range(&self) -> bool {
        match *self {
            Location::Pad(x, y) => x < 8 && y < 8,
            Location::Button(index, _) => index < 8,
        }
    }

    /// Whether the location exists on the device.
    #[verifier::when_used_as_spec(spec_in_range)]
    pub fn in_range(&self) -> (b: bool)
        ensures
            b == self.spec_in_range(),
    {
        match *self {
            Location::Pad(x, y) => x < 8 && y < 8,
            Location::Button(index, _) => index < 8,
        }
    }
}

impl Event {
    /// The location that the event speaks of.
    pub open spec fn location(&self) -> Location {
        match *self {
            Event::Press(location) => location,
            Event::Release(location) => location,
        }
    }
}

/// Where the logical cell `coords` lies on a device mounted at `side`.
pub open spec fn spec_rotate_coords(coords: (u8, u8), side: Side) -> (u8, u8) {
    match side {
        Side::Bottom => coords,
        Side::Top => ((7 - coords.0) as u8, (7 - coords.1) as u8),
        Side::Left => (coords.1, (7 - coords.0) as u8),
        Side::Right => ((7 - coords.1) as u8, coords.0),
    }
}

/// The logical cell that is shown at `coords` of a device mounted at `side`.
pub open spec fn spec_unrotate_coords(coords: (u8, u8), side: Side) -> (u8, u8) {
    match side {
        Side::Bottom => coords,
        Side::Top => spec_rotate_coords(coords, Side::Top),
        Side::Left => spec_rotate_coords(coords, Side::Right),
        Side::Right => spec_rotate_coords(coords, Side::Left),
    }
}

/// Both coordinates are below eight.
pub open spec fn on_grid(coords: (u8, u8)) -> bool {
    coords.0 < 8 && coords.1 < 8
}

/// Maps a logical cell to the pad that shows it.
pub fn rotate_coords(coords: (u8, u8), side: &Side) -> (rotated: (u8, u8))
    requires
        on_grid(coords),
    ensures
        rotated == spec_rotate_coords(coords, *side),
        on_grid(rotated),
{
    match side {
        Side::Bottom => coords,
        Side::Top => (7 - coords.0, 7 - coords.1),
        Side::Left => (coords.1, 7 - coords.0),
        Side::Right => (7 - coords.1, coords.0),
    }
}

/// Maps a pad to the logical cell that it shows.
pub fn unrotate_coords(coords: (u8, u8), side: &Side) -> (logical: (u8, u8))
    requires
        on_grid(coords),
    ensures
        logical == spec_unrotate_coords(coords, *side),
        on_grid(logical),
{
    match side {
        Side::Bottom => coords,
        Side::Top => rotate_coords(coords, &Side::Top),
        Side::Left => rotate_coords(coords, &Side::Right),
        Side::Right => rotate_coords(coords, &Side::Left),
    }
}

/// Unrotating undoes rotating, and rotating undoes unrotating.
pub proof fn lemma_rotation_inverse(coords: (u8, u8), side: Side)
    requires
        on_grid(coords),
    ensures
        spec_unrotate_coords(spec_rotate_coords(coords, side), side) == coords,
        spec_rotate_coords(spec_unrotate_coords(coords, side), side) == coords,
{
}

/// Rotation maps the grid onto itself, one to one: a rotated cell lies on
/// the grid, two cells with one image are the same cell, and every cell of
/// the grid is the image of one.
pub proof fn lemma_rotation_bijective(a: (u8, u8), b: (u8, u8), side: Side)
    requires
        on_grid(a),
        on_grid(b),
    ensures
        on_grid(spec_rotate_coords(a, side)),
        spec_rotate_coords(a, side) == spec_rotate_coords(b, side) ==> a == b,
        on_grid(spec_unrotate_coords(b, side)),
        spec_rotate_coords(spec_unrotate_coords(b, side), side) == b,
{
}

/// The colours that the device is to show: the square grid of pads and the
/// two strips of buttons.
#[derive(Clone, Copy)]
pub struct LaunchpadBuffer {
    grid: [[RGBColor; 8]; 8],
    top_buttons: [RGBColor; 8],
    right_buttons: [RGBColor; 8],
}

impl View for LaunchpadBuffer {
    type V = Map<Location, RGBColor>;

    /// The colour of every location of the device.
    open spec fn view(&self) -> Map<Location, RGBColor> {
        Map::new(|location: Location| location.in_range(), |location: Location| self.color_at(location))
    }
}

impl LaunchpadBuffer {
    /// The colour held for `location`.
    pub closed spec fn color_at(&self, location: Location) -> RGBColor {
        match location {
            Location::Pad(x, y) => self.grid[y as int][x as int],
            Location::Button(index, ButtonSide::Top) => self.top_buttons[index as int],
            Location::Button(index, ButtonSide::Right) => self.right_buttons[index as int],
        }
    }

    /// Gives `location` the colour `color` and leaves every other location
    /// as it was.
    pub fn set(&mut self, location: &Location, color: &RGBColor)
        requires
            location.in_range(),
        ensures
            final(self)@ == old(self)@.insert(*location, *color),
    {
        match location {
            Location::Pad(x, y) => {
                self.grid[*y as usize][*x as usize] = *color;
            },
            Location::Button(index, ButtonSide::Top) => {
                self.top_buttons[*index as usize] = *color;
            },
            Location::Button(index, ButtonSide::Right) => {
                self.right_buttons[*index as usize] = *color;
            },
        }
        assert(self@ =~= old(self)@.insert(*location, *color));
    }

    /// The full refresh of the device: all eighty locations in the order of
    /// `write_order`, each with the colour held for it.
    pub fn render(&self) -> (writes: Vec<(Location, RGBColor)>)
        ensures
            writes@ == write_list(self@),
    {
        let mut writes: Vec<(Location, RGBColor)> = Vec::with_capacity(80);
        let mut y: usize = 0;
        while y < 8
            invariant
                y <= 8,
                writes@.len() == 8 * y,
                forall|i: int| 0 <= i < 8 * y ==> #[trigger] writes@[i] == (write_order(i), self@[write_order(i)]),
            decreases 8 - y,
        {
            let mut x: usize = 0;
            while x < 8
                invariant
                    y < 8,
                    x <= 8,
                    writes@.len() == 8 * y + x,
                    forall|i: int| 0 <= i < 8 * y + x ==> #[trigger] writes@[i] == (write_order(i), self@[write_order(i)]),
                decreases 8 - x,
            {
                writes.push((Location::Pad(x as u8, y as u8), self.grid[y][x]));
                x = x + 1;
            }
            y = y + 1;
        }
        let mut i: usize = 0;
        while i < 8
            invariant
                i <= 8,
                writes@.len() == 64 + i,
                forall|k: int| 0 <= k < 64 + i ==> #[trigger] writes@[k] == (write_order(k), self@[write_order(k)]),
            decreases 8 - i,
        {
            writes.push((Location::Button(i as u8, ButtonSide::Top), self.top_buttons[i]));
            i = i + 1;
        }
        let mut i: usize = 0;
        while i < 8
            invariant
                i <= 8,
                writes@.len() == 72 + i,
                forall|k: int| 0 <= k < 72 + i ==> #[trigger] writes@[k] == (write_order(k), self@[write_order(k)]),
            decreases 8 - i,
        {
            writes.push((Location::Button(i as u8, ButtonSide::Right), self.right_buttons[i]));
            i = i + 1;
        }
        assert(writes@ =~= write_list(self@));
        writes
    }
}

/// The location that stands at place `i` of a full refresh: the grid row by
/// row, then the top strip, then the right strip.
pub open spec fn write_order(i: int) -> Location {
    if i < 64 {
        Location::Pad((i % 8) as u8, (i / 8) as u8)
    } else if i < 72 {
        Location::Button((i - 64) as u8, ButtonSide::Top)
    } else {
        Location::Button((i - 72) as u8, ButtonSide::Right)
    }
}

/// The full refresh that shows `colors`.
pub open spec fn write_list(colors: Map<Location, RGBColor>) -> Seq<(Location, RGBColor)> {
    Seq::new(80, |i: int| (write_order(i), colors[write_order(i)]))
}

impl Default for LaunchpadBuffer {
    /// Every location black.
    fn default() -> (buffer: LaunchpadBuffer)
        ensures
            buffer@ == all_black(),
    {
        let black = RGBColor(0, 0, 0);
        let buffer = LaunchpadBuffer {
            grid: [[black; 8]; 8],
            top_buttons: [black; 8],
            right_buttons: [black; 8],
        };
        assert(buffer@ =~= all_black());
        buffer
    }
}

impl PartialEq for LaunchpadBuffer {
    /// Whether both buffers hold the same colour for every location.
    fn eq(&self, other: &LaunchpadBuffer) -> (equal: bool) {
        let mut i: usize = 0;
        while i < 8
            invariant
                i <= 8,
                forall|x: u8, y: u8|
                    x < 8 && y < i ==> #[trigger] self.color_at(Location::Pad(x, y)) == other.color_at(
                        Location::Pad(x, y),
                    ),
                forall|k: u8|
                    k < i ==> #[trigger] self.color_at(Location::Button(k, ButtonSide::Top))
                        == other.color_at(Location::Button(k, ButtonSide::Top)),
                forall|k: u8|
                    k < i ==> #[trigger] self.color_at(Location::Button(k, ButtonSide::Right))
                        == other.color_at(Location::Button(k, ButtonSide::Right)),
            decreases 8 - i,
        {
            if self.top_buttons[i] != other.top_buttons[i] {
                proof {
                    lemma_differ(*self, *other, Location::Button(i as u8, ButtonSide::Top));
                }
                return false;
            }
            if self.right_buttons[i] != other.right_buttons[i] {
                proof {
                    lemma_differ(*self, *other, Location::Button(i as u8, ButtonSide::Right));
                }
                return false;
            }
            let mut j: usize = 0;
            while j < 8
                invariant
                    i < 8,
                    j <= 8,
                    forall|x: u8|
                        x < j ==> #[trigger] self.color_at(Location::Pad(x, i as u8)) == other.color_at(
                            Location::Pad(x, i as u8),
                        ),
                decreases 8 - j,
            {
                if self.grid[i][j] != other.grid[i][j] {
                    proof {
                        lemma_differ(*self, *other, Location::Pad(j as u8, i as u8));
                    }
                    return false;
                }
                j = j + 1;
            }
            i = i + 1;
        }
        assert(self@ =~= other@);
        true
    }
}

impl PartialEqSpecImpl for LaunchpadBuffer {
    open spec fn obeys_eq_spec() -> bool {
        true
    }

    /// Two buffers are equal where every location has the same colour in
    /// both.
    open spec fn eq_spec(&self, other: &LaunchpadBuffer) -> bool {
        self@ == other@
    }
}

/// Buffers that hold different colours for one location of the device have
/// different views.
proof fn lemma_differ(a: LaunchpadBuffer, b: LaunchpadBuffer, location: Location)
    requires
        location.in_range(),
        a.color_at(location) != b.color_at(location),
    ensures
        a@ != b@,
{
    assert(a@[location] != b@[location]);
}

/// Buffers that differ in the colour of one location of the device are not
/// equal.
pub proof fn lemma_differing_cell_unequal(a: LaunchpadBuffer, b: LaunchpadBuffer, location: Location)
    requires
        location.in_range(),
        a@[location] != b@[location],
    ensures
        !PartialEqSpec::eq_spec(&a, &b),
{
}

/// The view that `base` becomes when the writes of `writes` are made on it
/// in turn.
pub open spec fn written(base: Map<Location, RGBColor>, writes: Seq<(Location, RGBColor)>) -> Map<
    Location,
    RGBColor,
>
    decreases writes.len(),
{
    if writes.len() == 0 {
        base
    } else {
        written(base, writes.drop_last()).insert(writes.last().0, writes.last().1)
    }
}

/// No location is written with two different colours.
pub open spec fn single_colored(writes: Seq<(Location, RGBColor)>) -> bool {
    forall|i: int, j: int|
        0 <= i < writes.len() && 0 <= j < writes.len() && (#[trigger] writes[i]).0 == (
        #[trigger] writes[j]).0 ==> writes[i].1 == writes[j].1
}

/// Whether some write of `writes` is to `location`.
pub open spec fn writes_to(writes: Seq<(Location, RGBColor)>, location: Location) -> bool {
    exists|i: int| 0 <= i < writes.len() && (#[trigger] writes[i]).0 == location
}

/// After writes that give no location two colours, a written location has
/// the colour written and every other location is as in `base`.
pub proof fn lemma_written(base: Map<Location, RGBColor>, writes: Seq<(Location, RGBColor)>)
    requires
        single_colored(writes),
    ensures
        forall|location: Location|
            #![trigger written(base, writes).contains_key(location)]
            written(base, writes).contains_key(location) <==> base.contains_key(location)
                || writes_to(writes, location),
        forall|i: int|
            #![trigger writes[i]]
            0 <= i < writes.len() ==> written(base, writes)[writes[i].0] == writes[i].1,
        forall|location: Location|
            #![trigger written(base, writes)[location]]
            !writes_to(writes, location) ==> written(base, writes)[location] == base[location],
    decreases writes.len(),
{
    if writes.len() > 0 {
        let front = writes.drop_last();
        let last = writes.last();
        let before = written(base, front);
        assert(written(base, writes) == before.insert(last.0, last.1));
        assert(writes[writes.len() - 1] == last);
        assert forall|i: int, j: int|
            0 <= i < front.len() && 0 <= j < front.len() && (#[trigger] front[i]).0 == (
            #[trigger] front[j]).0 implies front[i].1 == front[j].1 by {
            assert(front[i] == writes[i] && front[j] == writes[j]);
        }
        lemma_written(base, front);
        assert forall|location: Location| writes_to(front, location) implies writes_to(
            writes,
            location,
        ) by {
            let i = choose|i: int| 0 <= i < front.len() && (#[trigger] front[i]).0 == location;
            assert(writes[i].0 == location);
        }
        assert forall|location: Location|
            writes_to(writes, location) && location != last.0 implies writes_to(front, location) by {
            let i = choose|i: int| 0 <= i < writes.len() && (#[trigger] writes[i]).0 == location;
            assert(front[i].0 == location);
        }
        assert(writes_to(writes, last.0));
        assert forall|location: Location|
            #![trigger written(base, writes).contains_key(location)]
            written(base, writes).contains_key(location) <==> base.contains_key(location)
                || writes_to(writes, location) by {
            assert(before.contains_key(location) <==> base.contains_key(location) || writes_to(
                front,
                location,
            ));
        }
        assert forall|i: int|
            #![trigger writes[i]]
            0 <= i < writes.len() implies written(base, writes)[writes[i].0] == writes[i].1 by {
            if writes[i].0 != last.0 {
                assert(front[i] == writes[i]);
                assert(before[front[i].0] == front[i].1);
            }
        }
        assert forall|location: Location|
            #![trigger written(base, writes)[location]]
            !writes_to(writes, location) implies written(base, writes)[location]
                == base[location] by {
            assert(before[location] == base[location]);
        }
    }
}

/// Buffers built from the same writes are equal whatever the order of the
/// writes, as long as no location is written with two different colours.
pub proof fn lemma_write_order(
    base: Map<Location, RGBColor>,
    a: Seq<(Location, RGBColor)>,
    b: Seq<(Location, RGBColor)>,
)
    requires
        a.to_multiset() == b.to_multiset(),
        single_colored(a),
    ensures
        written(base, a) == written(base, b),
{
    a.to_multiset_ensures();
    b.to_multiset_ensures();
    assert forall|j: int| 0 <= j < b.len() implies a.contains(#[trigger] b[j]) by {
        assert(b.contains(b[j]));
        assert(b.to_multiset().count(b[j]) > 0);
        assert(a.to_multiset().count(b[j]) > 0);
    }
    assert forall|i: int| 0 <= i < a.len() implies b.contains(#[trigger] a[i]) by {
        assert(a.contains(a[i]));
        assert(a.to_multiset().count(a[i]) > 0);
        assert(b.to_multiset().count(a[i]) > 0);
    }
    assert forall|i: int, j: int|
        0 <= i < b.len() && 0 <= j < b.len() && (#[trigger] b[i]).0 == (#[trigger] b[j]).0 implies b[i].1
        == b[j].1 by {
        assert(a.contains(b[i]) && a.contains(b[j]));
        let k = choose|k: int| 0 <= k < a.len() && a[k] == b[i];
        let l = choose|l: int| 0 <= l < a.len() && a[l] == b[j];
        assert(a[k].0 == a[l].0);
    }
    lemma_written(base, a);
    lemma_written(base, b);
    assert forall|location: Location| writes_to(a, location) implies writes_to(b, location)
        && written(base, a)[location] == written(base, b)[location] by {
        let i = choose|i: int| 0 <= i < a.len() && (#[trigger] a[i]).0 == location;
        assert(b.contains(a[i]));
        let j = choose|j: int| 0 <= j < b.len() && b[j] == a[i];
        assert(b[j].0 == location);
    }
    assert forall|location: Location| writes_to(b, location) implies writes_to(a, location) by {
        let j = choose|j: int| 0 <= j < b.len() && (#[trigger] b[j]).0 == location;
        assert(a.contains(b[j]));
        let i = choose|i: int| 0 <= i < a.len() && a[i] == b[j];
        assert(a[i].0 == location);
    }
    assert forall|location: Location|
        written(base, a).contains_key(location) == written(base, b).contains_key(location) && (
        written(base, a).contains_key(location) ==> written(base, a)[location] == written(
            base,
            b,
        )[location]) by {
        if !writes_to(a, location) {
            assert(!writes_to(b, location));
            assert(written(base, a)[location] == base[location]);
            assert(written(base, b)[location] == base[location]);
        }
    }
    assert(written(base, a) =~= written(base, b));
}

/// Two writes to one location with different colours do not commute: the
/// later one stays.
pub proof fn lemma_write_conflict(
    base: Map<Location, RGBColor>,
    location: Location,
    first: RGBColor,
    second: RGBColor,
)
    requires
        first != second,
    ensures
        base.insert(location, first).insert(location, second) != base.insert(location, second).insert(
            location,
            first,
        ),
{
    assert(base.insert(location, first).insert(location, second)[location] == second);
    assert(base.insert(location, second).insert(location, first)[location] == first);
}

/// The buffer's view with every location black.
pub open spec fn all_black() -> Map<Location, RGBColor> {
    Map::new(|location: Location| location.in_range(), |location: Location| RGBColor(0, 0, 0))
}

} // verus!
