//! The decisions of the control loop: what a press on the device asks of the
//! window manager, what the device is to show for a layout, and whether the
//! device has to be written at all.

use vstd::prelude::*;

use crate::config::Config;
use crate::config::RGBColor;
use crate::config::Side;
use crate::i3::find_workspaces;
use crate::i3::layout_view;
use crate::i3::spec_find_workspaces;
use crate::i3::windows_view;
use crate::i3::Node;
use crate::i3::WindowView;
use crate::text::decimal;
use crate::text::push_signed_decimal;
use crate::ui::all_black;
use crate::ui::lemma_rotation_inverse;
use crate::ui::on_grid;
use crate::ui::rotate_coords;
use crate::ui::spec_rotate_coords;
use crate::ui::spec_unrotate_coords;
use crate::ui::unrotate_coords;
use crate::ui::write_list;
use crate::ui::Event;
use crate::ui::LaunchpadBuffer;
use crate::ui::Location;

verus! {

/// What a press asks of the window manager.
#[derive(Debug, PartialEq, Eq)]
pub enum Command {
    /// Focus the window with this identifier.
    Focus(i64),
    /// Switch to the workspace of this name.
    Workspace(String),
}

/// A command as the contracts speak of it.
pub enum CommandView {
    Focus(i64),
    Workspace(Seq<char>),
}

impl View for Command {
    type V = CommandView;

    open spec fn view(&self) -> CommandView {
        match *self {
            Command::Focus(id) => CommandView::Focus(id),
            Command::Workspace(name) => CommandView::Workspace(name@),
        }
    }
}

impl CommandView {
    /// The words in which the window manager takes the command. The name of
    /// a workspace is put in as it stands.
    pub open spec fn text(self) -> Seq<char> {
        match self {
            CommandView::Focus(id) => "[con_id=\""@ + decimal(id as int) + "\"] focus"@,
            CommandView::Workspace(name) => "workspace "@ + name,
        }
    }
}

impl Command {
    /// Words the command for the window manager.
    pub fn text(&self) -> (text: String)
        ensures
            text@ == self@.text(),
    {
        match self {
            Command::Focus(id) => {
                let mut text = String::from_str("[con_id=\"");
                push_signed_decimal(&mut text, *id);
                text.append("\"] focus");
                text
            },
            Command::Workspace(name) => {
                let mut text = String::from_str("workspace ");
                text.append(name.as_str());
                text
            },
        }
    }
}

/// The optional command as the contracts speak of it.
pub open spec fn command_view(command: Option<Command>) -> Option<CommandView> {
    match command {
        Some(c) => Some(c@),
        None => None,
    }
}

/// The place in the layout that the pad `location` stands for on a device
/// mounted at `side`: the workspace by its position and the window by its
/// position in the workspace. A location that is no pad of the grid stands
/// for none.
pub open spec fn slot_of(side: Side, location: Location) -> Option<(int, int)> {
    match location {
        Location::Pad(x, y) => if on_grid((x, y)) {
            let logical = spec_unrotate_coords((x, y), side);
            Some((logical.0 as int, logical.1 as int))
        } else {
            None
        },
        Location::Button(_, _) => None,
    }
}

/// The window that `location` shows for `layout`, if it shows one.
pub open spec fn shown_window(
    layout: Seq<(Seq<char>, Seq<WindowView>)>,
    side: Side,
    location: Location,
) -> Option<WindowView> {
    match slot_of(side, location) {
        Some((workspace, window)) => if workspace < layout.len() && window < layout[workspace].1.len() {
            Some(layout[workspace].1[window])
        } else {
            None
        },
        None => None,
    }
}

/// What an event asks for: a press on a pad whose column is a workspace of
/// the layout focuses the window that the pad shows, or switches to the
/// workspace where the pad shows none; anything else asks for nothing.
pub open spec fn spec_handle_event(
    layout: Seq<(Seq<char>, Seq<WindowView>)>,
    side: Side,
    event: Event,
) -> Option<CommandView> {
    match event {
        Event::Press(location) => match slot_of(side, location) {
            Some((workspace, window)) => if workspace < layout.len() {
                if window < layout[workspace].1.len() {
                    Some(CommandView::Focus(layout[workspace].1[window].id))
                } else {
                    Some(CommandView::Workspace(layout[workspace].0))
                }
            } else {
                None
            },
            None => None,
        },
        Event::Release(_) => None,
    }
}

/// The colour in which a window is shown: that of its class, or the default
/// colour where it states no class.
pub open spec fn window_color(config: Config, window: WindowView) -> RGBColor {
    match window.class {
        Some(class) => config.spec_resolve(class),
        None => config.default_color,
    }
}

/// What rendering `layout` makes of the colours `base`: a pad that shows a
/// window has that window's colour, and every other location keeps its own.
pub open spec fn spec_render(
    base: Map<Location, RGBColor>,
    layout: Seq<(Seq<char>, Seq<WindowView>)>,
    config: Config,
) -> Map<Location, RGBColor> {
    Map::new(
        |location: Location| base.contains_key(location),
        |location: Location|
            match shown_window(layout, config.side, location) {
                Some(window) => window_color(config, window),
                None => base[location],
            },
    )
}

/// The colours while rendering is under way: of the pads that show a
/// window, those whose place in the layout comes before workspace `x`,
/// window `y` have the window's colour already.
spec fn partly_rendered(
    base: Map<Location, RGBColor>,
    layout: Seq<(Seq<char>, Seq<WindowView>)>,
    config: Config,
    x: int,
    y: int,
) -> Map<Location, RGBColor> {
    Map::new(
        |location: Location| base.contains_key(location),
        |location: Location|
            match shown_window(layout, config.side, location) {
                Some(window) => {
                    let slot = slot_of(config.side, location)->0;
                    if slot.0 < x || (slot.0 == x && slot.1 < y) {
                        window_color(config, window)
                    } else {
                        base[location]
                    }
                },
                None => base[location],
            },
    )
}

/// The pad that shows a slot of the logical grid stands for that slot, and
/// no other location does.
proof fn lemma_slot_of_rotated(side: Side, x: u8, y: u8, location: Location)
    requires
        on_grid((x, y)),
    ensures
        slot_of(side, location) == Some((x as int, y as int)) <==> location == Location::Pad(
            spec_rotate_coords((x, y), side).0,
            spec_rotate_coords((x, y), side).1,
        ),
{
    lemma_rotation_inverse((x, y), side);
    match location {
        Location::Pad(px, py) => {
            if on_grid((px, py)) {
                lemma_rotation_inverse((px, py), side);
            }
        },
        Location::Button(_, _) => {},
    }
}

/// The control loop's own state: the configuration, and the buffer that the
/// device was last written with.
pub struct Program {
    config: Config,
    last_buffer: Option<LaunchpadBuffer>,
}

impl Program {
    /// The configuration that the program runs with.
    pub closed spec fn config(&self) -> Config {
        self.config
    }

    /// The buffer that the device shows, where it was written at all.
    pub closed spec fn last_buffer(&self) -> Option<LaunchpadBuffer> {
        self.last_buffer
    }

    /// A program that has not written the device yet.
    pub fn from_config(config: Config) -> (program: Program)
        ensures
            program.config() == config,
            program.last_buffer() is None,
    {
        Program { config, last_buffer: None }
    }

    /// Writes the layout of the tree into `buffer`: for each of the first
    /// eight workspaces and each of its first eight windows, the window's
    /// colour at the pad that shows it.
    pub fn render(&self, root: &Node, buffer: &mut LaunchpadBuffer)
        ensures
            final(buffer)@ == spec_render(
                old(buffer)@,
                spec_find_workspaces(*root),
                self.config(),
            ),
    {
        let workspaces = find_workspaces(root);
        let ghost layout = layout_view(workspaces@);
        let ghost base = buffer@;
        assert(buffer@ =~= partly_rendered(base, layout, self.config, 0, 0));
        let mut x: usize = 0;
        while x < workspaces.len() && x < 8
            invariant
                x <= 8,
                x <= workspaces@.len(),
                layout == layout_view(workspaces@),
                forall|location: Location| base.contains_key(location) <==> location.in_range(),
                buffer@ == partly_rendered(base, layout, self.config, x as int, 0),
            decreases 8 - x,
        {
            let windows = &workspaces[x].1;
            assert(layout[x as int].1 == windows_view(windows@));
            let mut y: usize = 0;
            while y < windows.len() && y < 8
                invariant
                    x < 8,
                    x < layout.len(),
                    y <= 8,
                    y <= windows@.len(),
                    layout[x as int].1 == windows_view(windows@),
                    forall|location: Location| base.contains_key(location) <==> location.in_range(),
                    buffer@ == partly_rendered(base, layout, self.config, x as int, y as int),
                decreases 8 - y,
            {
                let (px, py) = rotate_coords((x as u8, y as u8), &self.config.side);
                let color = match &windows[y].class {
                    Some(class) => self.config.resolve(class.as_str()),
                    None => self.config.default_color,
                };
                buffer.set(&Location::Pad(px, py), &color);
                proof {
                    assert(layout[x as int].1[y as int] == windows@[y as int]@);
                    assert forall|location: Location| base.contains_key(location) implies buffer@[location]
                        == partly_rendered(base, layout, self.config, x as int, y + 1)[location] by {
                        lemma_slot_of_rotated(self.config.side, x as u8, y as u8, location);
                    }
                    assert(buffer@ =~= partly_rendered(base, layout, self.config, x as int, y + 1));
                }
                y = y + 1;
            }
            assert(buffer@ =~= partly_rendered(base, layout, self.config, x + 1, 0));
            x = x + 1;
        }
        assert(buffer@ =~= spec_render(base, layout, self.config));
    }

    /// The render phase of one cycle: renders the layout of the tree on a
    /// black buffer and compares it with what the device shows. Where the two
    /// differ, or the device was never written, the full refresh is handed
    /// out for writing and the new buffer is kept as what the device shows;
    /// where they are equal, nothing is to be written and nothing changes.
    pub fn run(&mut self, root: &Node) -> (writes: Option<Vec<(Location, RGBColor)>>)
        ensures
            final(self).config() == old(self).config(),
            ({
                let fresh = spec_render(
                    all_black(),
                    spec_find_workspaces(*root),
                    old(self).config(),
                );
                if old(self).last_buffer() matches Some(last) && last@ == fresh {
                    &&& writes is None
                    &&& final(self).last_buffer() == old(self).last_buffer()
                } else {
                    &&& writes matches Some(list) && list@ == write_list(fresh)
                    &&& final(self).last_buffer() matches Some(shown) && shown@ == fresh
                }
            }),
    {
        let mut buffer = LaunchpadBuffer::default();
        self.render(root, &mut buffer);
        let changed = match &self.last_buffer {
            Some(last) => !(buffer == *last),
            None => true,
        };
        if changed {
            let writes = buffer.render();
            self.last_buffer = Some(buffer);
            Some(writes)
        } else {
            None
        }
    }

    /// Decides what `event` asks of the window manager, given the tree as it
    /// is now.
    pub fn handle_event(&self, root: &Node, event: &Event) -> (command: Option<Command>)
        requires
            event.location().in_range(),
        ensures
            command_view(command) == spec_handle_event(
                spec_find_workspaces(*root),
                self.config().side,
                *event,
            ),
    {
        let workspaces = find_workspaces(root);
        match event {
            Event::Press(Location::Pad(x, y)) => {
                let (x, y) = unrotate_coords((*x, *y), &self.config.side);
                let ghost layout = layout_view(workspaces@);
                if (x as usize) < workspaces.len() {
                    assert(layout[x as int] == (
                        workspaces@[x as int].0@,
                        windows_view(workspaces@[x as int].1@),
                    ));
                    let (workspace, windows) = &workspaces[x as usize];
                    if (y as usize) < windows.len() {
                        assert(layout[x as int].1[y as int] == windows@[y as int]@);
                        Some(Command::Focus(windows[y as usize].id))
                    } else {
                        Some(Command::Workspace(workspace.clone()))
                    }
                } else {
                    None
                }
            },
            _ => None,
        }
    }
}

} // verus!
