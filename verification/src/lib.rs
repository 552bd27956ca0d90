//! A verified turtle-drawing engine: textual drawing commands are parsed
//! into typed commands, composed into plans, and executed against a pen
//! state, yielding the line segments to hand to a rendering backend.
//!
//! All scalars (positions, basis vectors, scale factors, angles) are held
//! in fixed point: an `i64` counts millionths of a unit, so `1_000_000`
//! stands for `1.0` and `90_000_000` for ninety degrees.

mod command;
mod engine;
mod fixed;
mod plan;
mod sources;
mod trig;

pub use sources::insert_src;
pub use sources::lex_le;
pub use sources::sort_sources;
pub use sources::sort_srcs;
pub use sources::source_plans;
pub use sources::str_lex_le;

pub use plan::errors_of_lines;
pub use plan::flatten_plans;
pub use plan::plans_view;
pub use plan::lemma_add_assoc;
pub use plan::lemma_add_empty;
pub use plan::plan_of_lines;
pub use plan::DrawPlan;

pub use engine::add_s;
pub use engine::lemma_home_resets;
pub use engine::lemma_move_pen_off;
pub use engine::lemma_rotate_quarter;
pub use engine::lemma_run_concat;
pub use engine::lemma_run_snoc;
pub use engine::lemma_scale_then_move;
pub use engine::move_delta;
pub use engine::mul_s;
pub use engine::reset_state;
pub use engine::rot_vec;
pub use engine::run;
pub use engine::run_lines;
pub use engine::scale2_move1;
pub use engine::step;
pub use engine::step_lines;
pub use engine::sub_s;
pub use engine::Draw;
pub use engine::Line;
pub use engine::PenState;
pub use engine::Rgb;

pub use command::bool_of_token;
pub use command::fx_of_token;
pub use command::parse_bool;
pub use command::parse_fx;
pub use command::parse_line_spec;
pub use command::parse_tokens;
pub use command::parse_tokens_spec;
pub use command::parse_u8;
pub use command::tokenize;
pub use command::tokens;
pub use command::u8_of_token;
pub use command::DrawCall;
pub use command::ParseError;
pub use command::ParseErrorModel;

pub use trig::cos_ud;
pub use trig::sin_ud;
pub use trig::sincos_ud;
pub use trig::DEG_FULL;
pub use trig::DEG_HALF;
pub use trig::DEG_QUARTER;
pub use trig::PI_FX;

pub use fixed::add_fx;
pub use fixed::div_tz;
pub use fixed::fx_add;
pub use fixed::fx_mul;
pub use fixed::fx_sub;
pub use fixed::lemma_fx_mul_units;
pub use fixed::mul_fx;
pub use fixed::sat64;
pub use fixed::sub_fx;
pub use fixed::Vec2;
pub use fixed::SCALE;
