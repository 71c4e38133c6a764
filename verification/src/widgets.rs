//! The arithmetic of the demonstration widgets: where children of a flow lie,
//! what a press or a drag does to a button and to a slider, and which child
//! an event is for. Positions are 32-bit integers, and sums and products wrap
//! around as 32-bit arithmetic does.

use vstd::prelude::*;

verus! {

/// A point or an extent with signed coordinates.
#[derive(Clone, Copy, Debug, PartialEq, Eq, Structural)]
pub struct IVec2 {
    pub x: i32,
    pub y: i32,
}

/// A point or an extent with unsigned coordinates.
#[derive(Clone, Copy, Debug, PartialEq, Eq, Structural)]
pub struct UVec2 {
    pub x: u32,
    pub y: u32,
}

/// The value of 32-bit signed arithmetic for a result that is off by at most
/// one turn.
pub open spec fn wrap32(v: int) -> int {
    if v > i32::MAX {
        v - 0x1_0000_0000
    } else if v < i32::MIN {
        v + 0x1_0000_0000
    } else {
        v
    }
}

/// Brings a result that is off by at most one turn into 32 bits.
fn wrap(v: i64) -> (r: i32)
    requires
        -0x1_0000_0000 <= v <= 0x1_0000_0000,
    ensures
        r == wrap32(v as int),
{
    if v > i32::MAX as i64 {
        (v - 0x1_0000_0000) as i32
    } else if v < i32::MIN as i64 {
        (v + 0x1_0000_0000) as i32
    } else {
        v as i32
    }
}

/// The sum of two vectors, each coordinate wrapping.
pub open spec fn sum_of(a: IVec2, b: IVec2) -> IVec2 {
    IVec2 { x: wrap32(a.x + b.x) as i32, y: wrap32(a.y + b.y) as i32 }
}

/// The sum of two vectors, each coordinate wrapping.
pub fn add_wrapping(a: IVec2, b: IVec2) -> (r: IVec2)
    ensures
        r == sum_of(a, b),
{
    IVec2 { x: wrap(a.x as i64 + b.x as i64), y: wrap(a.y as i64 + b.y as i64) }
}

/// The size of twice the distance of a coordinate from zero, as unsigned
/// 32-bit arithmetic gives it: double, wrap, take the absolute value.
pub open spec fn reach(v: i32) -> int {
    let doubled = wrap32(v * 2);
    if doubled < 0 {
        -doubled
    } else {
        doubled
    }
}

/// The size of twice the distance of a coordinate from zero.
fn reach_of(v: i32) -> (r: u32)
    ensures
        r == reach(v),
{
    let doubled = wrap(v as i64 * 2);
    if doubled < 0 {
        (-(doubled as i64)) as u32
    } else {
        doubled as u32
    }
}

/// An input to a widget.
#[derive(Clone, Copy, Debug, PartialEq, Eq, Structural)]
pub enum InputEvent {
    /// A drag starts at a position.
    DragStart(IVec2),
    /// The drag ends.
    DragEnd,
    /// The drag has moved by this much since its start.
    DragMove(IVec2),
}

/// An event as a child sees it whose origin lies at `offset`: only the
/// position of a drag start is moved.
pub open spec fn offset_of(event: InputEvent, offset: IVec2) -> InputEvent {
    match event {
        InputEvent::DragStart(pos) => InputEvent::DragStart(sum_of(pos, offset)),
        other => other,
    }
}

impl InputEvent {
    /// The event moved by `offset`.
    pub fn offset(self, offset: IVec2) -> (moved: InputEvent)
        ensures
            moved == offset_of(self, offset),
    {
        match self {
            InputEvent::DragStart(pos) => InputEvent::DragStart(add_wrapping(pos, offset)),
            event => event,
        }
    }
}

/// The least and the most that a widget may take.
#[derive(Clone, Copy, Debug, PartialEq, Eq, Structural)]
pub struct Constraints {
    /// The minimum available dimensions of the widget.
    pub min: UVec2,
    /// The maximum available dimensions of the widget.
    pub max: UVec2,
}

/// The axis along which a flow lays out its children.
#[derive(Clone, Copy, Debug, PartialEq, Eq, Structural)]
pub enum FlowDirection {
    Horizontal,
    Vertical,
}

/// What a flow allows its children: anything along its axis, and across it
/// what the flow itself is allowed.
pub open spec fn child_constraints_of(dir: FlowDirection, constraints: Constraints) -> Constraints {
    match dir {
        FlowDirection::Horizontal => Constraints {
            min: UVec2 { x: 0, y: constraints.min.y },
            max: UVec2 { x: u32::MAX, y: constraints.max.y },
        },
        FlowDirection::Vertical => Constraints {
            min: UVec2 { x: constraints.min.x, y: 0 },
            max: UVec2 { x: constraints.max.x, y: u32::MAX },
        },
    }
}

/// What a flow allows its children.
pub fn child_constraints(dir: FlowDirection, constraints: &Constraints) -> (r: Constraints)
    ensures
        r == child_constraints_of(dir, *constraints),
{
    match dir {
        FlowDirection::Horizontal => Constraints {
            min: UVec2 { x: 0, y: constraints.min.y },
            max: UVec2 { x: u32::MAX, y: constraints.max.y },
        },
        FlowDirection::Vertical => Constraints {
            min: UVec2 { x: constraints.min.x, y: 0 },
            max: UVec2 { x: constraints.max.x, y: u32::MAX },
        },
    }
}

/// The extent of a size along the axis of a flow.
pub open spec fn main_of(dir: FlowDirection, size: UVec2) -> u32 {
    match dir {
        FlowDirection::Horizontal => size.x,
        FlowDirection::Vertical => size.y,
    }
}

/// The extent of a size across the axis of a flow.
pub open spec fn cross_of(dir: FlowDirection, size: UVec2) -> u32 {
    match dir {
        FlowDirection::Horizontal => size.y,
        FlowDirection::Vertical => size.x,
    }
}

/// The extents of the first `count` sizes along the axis, added up.
pub open spec fn main_sum(dir: FlowDirection, sizes: Seq<UVec2>, count: int) -> int
    decreases count,
{
    if count <= 0 {
        0
    } else {
        main_sum(dir, sizes, count - 1) + main_of(dir, sizes[count - 1])
    }
}

/// The largest extent across the axis among the first `count` sizes.
pub open spec fn cross_max(dir: FlowDirection, sizes: Seq<UVec2>, count: int) -> int
    decreases count,
{
    if count <= 0 {
        0
    } else {
        let before = cross_max(dir, sizes, count - 1);
        let this = cross_of(dir, sizes[count - 1]) as int;
        if this > before {
            this
        } else {
            before
        }
    }
}

/// The point at `along` on the axis of a flow and `across` off it.
pub open spec fn oriented(dir: FlowDirection, along: int, across: int) -> UVec2 {
    match dir {
        FlowDirection::Horizontal => UVec2 { x: along as u32, y: across as u32 },
        FlowDirection::Vertical => UVec2 { x: across as u32, y: along as u32 },
    }
}

/// Where the children of a flow lie, and the size of the flow.
#[derive(Clone, Debug, PartialEq, Eq)]
pub struct FlowLayout {
    /// The position of each child.
    pub positions: Vec<UVec2>,
    /// The size of the flow.
    pub size: UVec2,
}

/// The extents along the axis never add up to less when more are added.
pub proof fn lemma_main_sum_grows(dir: FlowDirection, sizes: Seq<UVec2>, i: int, j: int)
    requires
        0 <= i <= j,
    ensures
        main_sum(dir, sizes, i) <= main_sum(dir, sizes, j),
    decreases j - i,
{
    if i < j {
        lemma_main_sum_grows(dir, sizes, i, j - 1);
    }
}

/// Lays out the children of a flow, whose sizes are `sizes`: each child
/// starts where the one before it ends, and the flow is as long as all of
/// them and as wide as the widest. `None` where the length does not fit 32
/// bits.
pub fn flow_layout(dir: FlowDirection, sizes: &Vec<UVec2>) -> (r: Option<FlowLayout>)
    ensures
        r is Some <==> main_sum(dir, sizes@, sizes@.len() as int) <= u32::MAX,
        r matches Some(layout) ==> layout.positions@.len() == sizes@.len() && layout.size
            == oriented(
            dir,
            main_sum(dir, sizes@, sizes@.len() as int),
            cross_max(dir, sizes@, sizes@.len() as int),
        ) && forall|i: int|
            0 <= i < sizes@.len() ==> #[trigger] layout.positions@[i] == oriented(
                dir,
                main_sum(dir, sizes@, i),
                0,
            ),
{
    let mut positions: Vec<UVec2> = Vec::new();
    let mut cursor: u32 = 0;
    let mut max_cross_size: u32 = 0;
    let mut i: usize = 0;
    while i < sizes.len()
        invariant
            i <= sizes@.len(),
            positions@.len() == i,
            cursor == main_sum(dir, sizes@, i as int),
            max_cross_size == cross_max(dir, sizes@, i as int),
            forall|k: int|
                0 <= k < i ==> #[trigger] positions@[k] == oriented(
                    dir,
                    main_sum(dir, sizes@, k),
                    0,
                ),
        decreases sizes@.len() - i,
    {
        let size = sizes[i];
        let (position, main_size, cross_size) = match dir {
            FlowDirection::Horizontal => (UVec2 { x: cursor, y: 0 }, size.x, size.y),
            FlowDirection::Vertical => (UVec2 { x: 0, y: cursor }, size.y, size.x),
        };
        positions.push(position);
        cursor = match cursor.checked_add(main_size) {
            Some(next) => next,
            None => {
                proof {
                    lemma_main_sum_grows(dir, sizes@, i + 1, sizes@.len() as int);
                }
                return None;
            },
        };
        if cross_size > max_cross_size {
            max_cross_size = cross_size;
        }
        i = i + 1;
    }
    let size = match dir {
        FlowDirection::Horizontal => UVec2 { x: cursor, y: max_cross_size },
        FlowDirection::Vertical => UVec2 { x: max_cross_size, y: cursor },
    };
    Some(FlowLayout { positions, size })
}

/// An event as the child at `position` sees it.
pub fn child_event(event: InputEvent, position: UVec2) -> (r: InputEvent)
    ensures
        r == offset_of(event, towards_origin(position)),
{
    let x = wrap(-(wrap(position.x as i64) as i64));
    let y = wrap(-(wrap(position.y as i64) as i64));
    event.offset(IVec2 { x, y })
}

/// The offset that moves `position` to the origin: each coordinate is read as
/// signed and negated, wrapping.
pub open spec fn towards_origin(position: UVec2) -> IVec2 {
    IVec2 {
        x: wrap32(-wrap32(position.x as int)) as i32,
        y: wrap32(-wrap32(position.y as int)) as i32,
    }
}

/// Where a child of `child_size` lies that is centred in `size`. The
/// difference wraps where the child is larger.
pub fn centred(size: UVec2, child_size: UVec2) -> (r: UVec2)
    ensures
        r.x == (if size.x >= child_size.x {
            size.x - child_size.x
        } else {
            size.x - child_size.x + 0x1_0000_0000
        }) / 2,
        r.y == (if size.y >= child_size.y {
            size.y - child_size.y
        } else {
            size.y - child_size.y + 0x1_0000_0000
        }) / 2,
{
    UVec2 {
        x: size.x.wrapping_sub(child_size.x) / 2,
        y: size.y.wrapping_sub(child_size.y) / 2,
    }
}

/// Whether a button is held down.
#[derive(Clone, Copy, Debug, PartialEq, Eq, Structural)]
pub enum ButtonState {
    Idle,
    Clicked,
}

/// The width of a button.
pub const BUTTON_WIDTH: u32 = 40;

/// The height of a button.
pub const BUTTON_HEIGHT: u32 = 20;

/// The padding of a button, on each axis.
pub const BUTTON_PADDING: u32 = 1;

/// The centre of a padded button.
pub open spec fn button_centre() -> IVec2 {
    IVec2 { x: (-20) as i32, y: (-10) as i32 }
}

/// Whether a drag that starts at `pos` starts on the button.
pub open spec fn hits_button(pos: IVec2) -> bool {
    let at = sum_of(pos, button_centre());
    reach(at.x) <= BUTTON_WIDTH && reach(at.y) <= BUTTON_HEIGHT
}

/// The state of a button after `event`.
pub open spec fn button_after(state: ButtonState, event: InputEvent) -> ButtonState {
    match event {
        InputEvent::DragStart(pos) => if hits_button(pos) {
            ButtonState::Clicked
        } else {
            state
        },
        InputEvent::DragEnd => ButtonState::Idle,
        InputEvent::DragMove(_) => state,
    }
}

/// Whether `event` completes a click on a button in `state`.
pub open spec fn button_fires(state: ButtonState, event: InputEvent) -> bool {
    event is DragEnd && state is Clicked
}

/// A button: pressed by a drag that starts on it, and clicked when that drag
/// ends.
#[derive(Clone, Copy, Debug, PartialEq, Eq, Structural)]
pub struct Button {
    pub state: ButtonState,
}

impl Button {
    /// A button that is not held down.
    pub fn new() -> (button: Button)
        ensures
            button.state == ButtonState::Idle,
    {
        Button { state: ButtonState::Idle }
    }

    /// The size of the button with its padding.
    pub fn layout(&self) -> (size: UVec2)
        ensures
            size == (UVec2 { x: 41, y: 21 }),
    {
        UVec2 { x: BUTTON_WIDTH + BUTTON_PADDING, y: BUTTON_HEIGHT + BUTTON_PADDING }
    }

    /// Processes an input event and says whether the button was clicked.
    pub fn on_input(&mut self, event: InputEvent) -> (clicked: bool)
        ensures
            clicked == button_fires(old(self).state, event),
            final(self).state == button_after(old(self).state, event),
    {
        match event.offset(IVec2 { x: -20, y: -10 }) {
            InputEvent::DragStart(pos) => {
                if reach_of(pos.x) > BUTTON_WIDTH || reach_of(pos.y) > BUTTON_HEIGHT {
                    return false;
                }
                self.state = ButtonState::Clicked;
                false
            },
            InputEvent::DragEnd => {
                let clicked = match self.state {
                    ButtonState::Clicked => true,
                    ButtonState::Idle => false,
                };
                self.state = ButtonState::Idle;
                clicked
            },
            InputEvent::DragMove(_) => false,
        }
    }
}

/// The lowest position of a slider's handle.
pub const SLIDER_MIN: i32 = 1;

/// The highest position of a slider's handle.
pub const SLIDER_MAX: i32 = 99;

/// The width of a slider's handle.
pub const HANDLE_WIDTH: u32 = 20;

/// The height of a slider's handle.
pub const HANDLE_HEIGHT: u32 = 8;

/// A slider: its handle is grabbed by a drag that starts on it and follows
/// the drag along the track.
#[derive(Clone, Copy, Debug, PartialEq, Eq, Structural)]
pub struct Slider {
    /// Where the handle is.
    pub handle_pos: i32,
    /// Where the handle was when it was grabbed, while it is grabbed.
    pub handle_grab: Option<i32>,
}

/// Whether a drag that starts at `pos` starts on the handle of `slider`.
pub open spec fn hits_handle(slider: Slider, pos: IVec2) -> bool {
    let at = sum_of(pos, IVec2 { x: (-11) as i32, y: (-2) as i32 });
    let dx = at.x as int;
    let dy = wrap32(at.y - slider.handle_pos);
    span(dx) <= HANDLE_WIDTH && span(dy) <= HANDLE_HEIGHT
}

/// Twice the absolute value of a coordinate, as signed 32-bit arithmetic gives
/// it: take the absolute value, double, wrap. For a coordinate far from zero
/// the result may be negative.
pub open spec fn span(v: int) -> int {
    let size = if v < 0 {
        wrap32(-v)
    } else {
        v
    };
    wrap32(size * 2)
}

/// Twice the absolute value of a coordinate.
fn span_of(v: i32) -> (r: i32)
    ensures
        r == span(v as int),
{
    let size = if v < 0 {
        wrap(-(v as i64))
    } else {
        v
    };
    wrap(size as i64 * 2)
}

/// A position of the handle held to the track.
pub open spec fn on_track(pos: int) -> int {
    if pos < SLIDER_MIN {
        SLIDER_MIN as int
    } else if pos > SLIDER_MAX {
        SLIDER_MAX as int
    } else {
        pos
    }
}

/// The slider after `event`.
pub open spec fn slider_after(slider: Slider, event: InputEvent) -> Slider {
    match event {
        InputEvent::DragStart(pos) => if hits_handle(slider, pos) {
            Slider { handle_grab: Some(slider.handle_pos), ..slider }
        } else {
            slider
        },
        InputEvent::DragEnd => Slider { handle_grab: None, ..slider },
        InputEvent::DragMove(delta) => match slider.handle_grab {
            Some(grab) => Slider {
                handle_pos: on_track(wrap32(grab + delta.y)) as i32,
                ..slider
            },
            None => slider,
        },
    }
}

impl Slider {
    /// A slider with its handle at the start of the track.
    pub fn new() -> (slider: Slider)
        ensures
            slider == (Slider { handle_pos: 1, handle_grab: None }),
    {
        Slider { handle_pos: 1, handle_grab: None }
    }

    /// The size of the slider.
    pub fn layout(&self) -> (size: UVec2)
        ensures
            size == (UVec2 { x: 21, y: 108 }),
    {
        UVec2 { x: 21, y: 108 }
    }

    /// Processes an input event. The result is the new position of the
    /// handle where a drag moved it while it was grabbed.
    pub fn on_input(&mut self, event: InputEvent) -> (moved: Option<i32>)
        ensures
            *final(self) == slider_after(*old(self), event),
            moved == (if event is DragMove && old(self).handle_grab is Some {
                Some(final(self).handle_pos)
            } else {
                None
            }),
    {
        match event.offset(IVec2 { x: -11, y: -2 }) {
            InputEvent::DragStart(pos) => {
                let dy = wrap(pos.y as i64 - self.handle_pos as i64);
                if span_of(pos.x) > HANDLE_WIDTH as i32 || span_of(dy) > HANDLE_HEIGHT as i32 {
                    return None;
                }
                self.handle_grab = Some(self.handle_pos);
                None
            },
            InputEvent::DragEnd => {
                self.handle_grab = None;
                None
            },
            InputEvent::DragMove(delta) => {
                match self.handle_grab {
                    Some(grab) => {
                        let pos = wrap(grab as i64 + delta.y as i64);
                        self.handle_pos = if pos < SLIDER_MIN {
                            SLIDER_MIN
                        } else if pos > SLIDER_MAX {
                            SLIDER_MAX
                        } else {
                            pos
                        };
                        Some(self.handle_pos)
                    },
                    None => None,
                }
            },
        }
    }
}

/// Identifies a view.
#[derive(Clone, Copy, Debug, PartialEq, Eq, Hash, Structural)]
pub struct Id(pub usize);

/// Which child of a flow an event is for.
#[derive(Clone, Copy, Debug, PartialEq, Eq, Structural)]
pub enum Child {
    First,
    Second,
}

/// The child of a flow that the event with the identifier path `path` is for:
/// the one whose identifier stands second in the path, after the flow's own.
/// `None` where the path is shorter than that or names neither child: the
/// event is out of date.
pub fn route_event(path: &Vec<Id>, first: Id, second: Id) -> (r: Option<Child>)
    ensures
        r == (if path@.len() < 2 {
            None
        } else if path@[1] == first {
            Some(Child::First)
        } else if path@[1] == second {
            Some(Child::Second)
        } else {
            None
        }),
{
    if path.len() < 2 {
        return None;
    }
    let child_id = path[1];
    if child_id == first {
        Some(Child::First)
    } else if child_id == second {
        Some(Child::Second)
    } else {
        None
    }
}

} // verus!
