//! Typed representations of the device's wire JSON.

use vstd::prelude::*;

verus! {

/// An issued API token.
#[derive(Debug, Clone, PartialEq, Eq)]
pub struct Authorization {
    pub auth_token: String,
}

/// Full device snapshot.
#[derive(Debug, Clone, PartialEq)]
pub struct PanelInfo {
    pub name: String,
    pub manufacturer: String,
    pub model: String,
    pub firmware_version: String,
    pub serial_number: String,
    pub state: State,
    pub effects: Effects,
    pub panel_layout: PanelLayout,
}

/// Current light state.
#[derive(Debug, Clone, PartialEq)]
pub struct State {
    pub color_mode: String,
    pub brightness: Range,
    pub ct: Range,
    pub hue: Range,
    pub sat: Range,
    pub on: On,
}

/// Power flag.
#[derive(Debug, Clone, Copy, PartialEq, Eq, Structural)]
pub struct On {
    pub value: bool,
}

/// A bounded numeric property: the device keeps `min <= value <= max`;
/// this layer surfaces the fields as received and performs no local
/// validation of the bounds.
#[derive(Debug, Clone, Copy, PartialEq, Eq, Structural)]
pub struct Range {
    pub max: u32,
    pub min: u32,
    pub value: u32,
}

/// Effect catalog and current selection.
#[derive(Debug, Clone, PartialEq, Eq)]
pub struct Effects {
    pub effects_list: Vec<String>,
    pub select: String,
}

/// Physical panel geometry.
#[derive(Debug, Clone, PartialEq)]
pub struct PanelLayout {
    pub global_orientation: GlobalOrientation,
    pub layout: Layout,
}

/// Orientation of the whole installation, range-shaped.
#[derive(Debug, Clone, Copy, PartialEq, Eq, Structural)]
pub struct GlobalOrientation {
    pub max: u32,
    pub min: u32,
    pub value: u32,
}

/// Panel counts and positions.
#[derive(Debug, Clone, PartialEq)]
pub struct Layout {
    pub num_panels: u32,
    pub side_length: u32,
    pub position_data: Vec<Position>,
}

/// Panel hardware variant, a closed enumeration carried on the wire as a
/// small integer code; unknown codes fail decoding.
#[derive(Debug, Clone, Copy, PartialEq, Eq, Structural)]
pub enum ShapeType {
    Triangle,
    Rhythm,
    Square,
    ControlSquarePrimary,
    ControlSquarePassive,
    PowerSupply,
}

/// One physical panel.
#[derive(Debug, Clone, Copy, PartialEq, Eq, Structural)]
pub struct Position {
    pub panel_id: u32,
    pub o: i32,
    pub x: i32,
    pub y: i32,
    pub shape_type: ShapeType,
}

/// A "set brightness" request payload. Exactly one shape is sent on the
/// wire, with no discriminator tag; decoding resolves the shapes in the
/// documented order: bare integer, object with a duration, object without.
#[derive(Debug, Clone, Copy, PartialEq, Eq, Structural)]
pub enum Brightness {
    Increment(i32),
    Assign { value: u32 },
    AssignWithDuration { value: u32, duration: u32 },
}

/// A "set hue/sat/ct" request payload: the same untagged union behaviour as
/// `Brightness`, minus the duration shape.
#[derive(Debug, Clone, Copy, PartialEq, Eq, Structural)]
pub enum SetRange {
    Increment(i32),
    Assign { value: u32 },
}

/// The integer code that stands for a shape on the wire.
pub open spec fn shape_code(s: ShapeType) -> int {
    match s {
        ShapeType::Triangle => 0,
        ShapeType::Rhythm => 1,
        ShapeType::Square => 2,
        ShapeType::ControlSquarePrimary => 3,
        ShapeType::ControlSquarePassive => 4,
        ShapeType::PowerSupply => 5,
    }
}

/// The shape that a wire code stands for, if any.
pub open spec fn spec_shape_of_code(n: int) -> Option<ShapeType> {
    if n == 0 {
        Some(ShapeType::Triangle)
    } else if n == 1 {
        Some(ShapeType::Rhythm)
    } else if n == 2 {
        Some(ShapeType::Square)
    } else if n == 3 {
        Some(ShapeType::ControlSquarePrimary)
    } else if n == 4 {
        Some(ShapeType::ControlSquarePassive)
    } else if n == 5 {
        Some(ShapeType::PowerSupply)
    } else {
        None
    }
}

/// Decode a wire code into a shape. Exactly the codes 0 through 5 decode;
/// every other code is refused rather than mapped to a default.
pub fn shape_of_code(n: u32) -> (r: Option<ShapeType>)
    ensures
        r == spec_shape_of_code(n as int),
        r is Some <==> 0 <= n <= 5,
        r matches Some(s) ==> shape_code(s) == n,
{
    if n == 0 {
        Some(ShapeType::Triangle)
    } else if n == 1 {
        Some(ShapeType::Rhythm)
    } else if n == 2 {
        Some(ShapeType::Square)
    } else if n == 3 {
        Some(ShapeType::ControlSquarePrimary)
    } else if n == 4 {
        Some(ShapeType::ControlSquarePassive)
    } else if n == 5 {
        Some(ShapeType::PowerSupply)
    } else {
        None
    }
}

/// Wire code of a shape.
pub fn code_of_shape(s: ShapeType) -> (r: u32)
    ensures
        r == shape_code(s),
{
    match s {
        ShapeType::Triangle => 0,
        ShapeType::Rhythm => 1,
        ShapeType::Square => 2,
        ShapeType::ControlSquarePrimary => 3,
        ShapeType::ControlSquarePassive => 4,
        ShapeType::PowerSupply => 5,
    }
}

/// Decoding a shape's own code gives that shape back.
pub proof fn lemma_shape_code_round_trip(s: ShapeType)
    ensures
        spec_shape_of_code(shape_code(s)) == Some(s),
{
}

} // verus!
