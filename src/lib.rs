//! Motion control for a multi-axis print head: unit conversion, homing,
//! synchronized linear moves and a G-code subset, all in fixed-point integers.
pub mod arith;
pub mod motor;
pub mod number;
pub mod extruder;
pub mod printhead;
pub mod gcode;
