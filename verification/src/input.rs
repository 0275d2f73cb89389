//! Keys and scroll-wheel motion turned into launcher events.
use vstd::prelude::*;
use crate::model::Msg;
use crate::text::{chars_of, is_control, is_control_spec};

verus! {

/// X keysym of the Backspace key.
pub const KEY_BACKSPACE: u32 = 0xff08;

/// X keysym of the Return key.
pub const KEY_RETURN: u32 = 0xff0d;

/// X keysym of the Escape key.
pub const KEY_ESCAPE: u32 = 0xff1b;

/// X keysym of the Up arrow.
pub const KEY_UP: u32 = 0xff52;

/// X keysym of the Down arrow.
pub const KEY_DOWN: u32 = 0xff54;

/// The most selection steps one wheel event moves.
pub const MAX_WHEEL_STEPS_PER_EVENT: usize = 6;

/// The event a key gives: Escape quits, Return launches, Backspace deletes,
/// the arrows move the selection; any other key types the one character it
/// produces, unless that character is a control character.
pub open spec fn key_msg(keysym: u32, text: Option<Seq<char>>) -> Option<Msg> {
    if keysym == KEY_ESCAPE {
        Some(Msg::Quit)
    } else if keysym == KEY_RETURN {
        Some(Msg::LaunchSelected)
    } else if keysym == KEY_BACKSPACE {
        Some(Msg::Backspace)
    } else if keysym == KEY_UP {
        Some(Msg::SelectPrev)
    } else if keysym == KEY_DOWN {
        Some(Msg::SelectNext)
    } else {
        match text {
            Some(t) => if t.len() == 1 && !is_control_spec(t[0]) {
                Some(Msg::Type(t[0]))
            } else {
                None
            },
            None => None,
        }
    }
}

/// The event for a key with keysym `keysym` producing `text`; see `key_msg`.
pub fn key_event_to_msg(keysym: u32, text: Option<&str>) -> (r: Option<Msg>)
    ensures
        r == key_msg(
            keysym,
            match text {
                Some(t) => Some(t@),
                None => None,
            },
        ),
{
    if keysym == KEY_ESCAPE {
        return Some(Msg::Quit);
    }
    if keysym == KEY_RETURN {
        return Some(Msg::LaunchSelected);
    }
    if keysym == KEY_BACKSPACE {
        return Some(Msg::Backspace);
    }
    if keysym == KEY_UP {
        return Some(Msg::SelectPrev);
    }
    if keysym == KEY_DOWN {
        return Some(Msg::SelectNext);
    }
    match text {
        Some(t) => {
            let cs = chars_of(t);
            if cs.len() == 1 && !is_control(cs[0]) {
                Some(Msg::Type(cs[0]))
            } else {
                None
            }
        },
        None => None,
    }
}

/// The sign of `v`.
pub open spec fn signum(v: int) -> i32 {
    if v > 0 {
        1
    } else if v < 0 {
        -1i32
    } else {
        0
    }
}

/// Which way a wheel event scrolls (1 down, -1 up): by its high-resolution
/// steps, else its notches, else the sign of its pixel distance.
pub open spec fn wheel_direction_spec(value120: i32, discrete: i32, pixel_sign: i32) -> Option<i32> {
    if value120 != 0 {
        Some(signum(value120 as int))
    } else if discrete != 0 {
        Some(signum(discrete as int))
    } else if pixel_sign > 0 {
        Some(1)
    } else if pixel_sign < 0 {
        Some(-1i32)
    } else {
        None
    }
}

/// How many selection steps a wheel event moves: its whole notches of 120
/// high-resolution units, else its notches, else its pixel distance in steps
/// of 48 pixels (rounded); at least one and at most `MAX_WHEEL_STEPS_PER_EVENT`.
pub open spec fn wheel_steps_spec(value120: i32, discrete: i32, pixel_steps: usize) -> usize {
    let raw: int = if value120 != 0 {
        let a = if value120 < 0 { -value120 } else { value120 as int };
        if a / 120 >= 1 { a / 120 } else { 1 }
    } else if discrete != 0 {
        let a = if discrete < 0 { -discrete } else { discrete as int };
        if a >= 1 { a } else { 1 }
    } else if pixel_steps >= 1 {
        pixel_steps as int
    } else {
        1
    };
    if raw <= MAX_WHEEL_STEPS_PER_EVENT { raw as usize } else { MAX_WHEEL_STEPS_PER_EVENT }
}

/// The events a wheel event gives: that many selection moves its way.
pub open spec fn wheel_msgs(value120: i32, discrete: i32, pixel_sign: i32, pixel_steps: usize) -> Seq<Msg> {
    match wheel_direction_spec(value120, discrete, pixel_sign) {
        Some(d) => Seq::new(
            wheel_steps_spec(value120, discrete, pixel_steps) as nat,
            |i: int| if d > 0 { Msg::SelectNext } else { Msg::SelectPrev },
        ),
        None => seq![],
    }
}

/// Which way a wheel event scrolls; see `wheel_direction_spec`.
pub fn wheel_direction(value120: i32, discrete: i32, pixel_sign: i32) -> (r: Option<i32>)
    ensures
        r == wheel_direction_spec(value120, discrete, pixel_sign),
{
    if value120 != 0 {
        return Some(if value120 > 0 { 1 } else { -1 });
    }
    if discrete != 0 {
        return Some(if discrete > 0 { 1 } else { -1 });
    }
    if pixel_sign > 0 {
        return Some(1);
    }
    if pixel_sign < 0 {
        return Some(-1);
    }
    None
}

/// How many selection steps a wheel event moves; see `wheel_steps_spec`.
/// (The magnitude of `i32::MIN` high-resolution units does not fit an `i32`.)
pub fn wheel_steps(value120: i32, discrete: i32, pixel_steps: usize) -> (r: usize)
    requires
        value120 != i32::MIN,
    ensures
        r == wheel_steps_spec(value120, discrete, pixel_steps),
{
    let steps: usize = if value120 != 0 {
        let a = if value120 < 0 { -value120 } else { value120 };
        let n = a / 120;
        if n >= 1 { n as usize } else { 1 }
    } else if discrete != 0 {
        let a: u32 = if discrete < 0 { (-(discrete as i64)) as u32 } else { discrete as u32 };
        if a >= 1 { a as usize } else { 1 }
    } else if pixel_steps >= 1 {
        pixel_steps
    } else {
        1
    };
    if steps <= MAX_WHEEL_STEPS_PER_EVENT { steps } else { MAX_WHEEL_STEPS_PER_EVENT }
}

/// The events a wheel event gives; see `wheel_msgs`. `pixel_sign` is the sign
/// of its pixel distance and `pixel_steps` that distance over 48, rounded.
pub fn wheel_messages(value120: i32, discrete: i32, pixel_sign: i32, pixel_steps: usize) -> (r: Vec<Msg>)
    requires
        value120 != i32::MIN,
    ensures
        r@ == wheel_msgs(value120, discrete, pixel_sign, pixel_steps),
{
    let direction = match wheel_direction(value120, discrete, pixel_sign) {
        Some(d) => d,
        None => return Vec::new(),
    };
    let steps = wheel_steps(value120, discrete, pixel_steps);
    let mut out: Vec<Msg> = Vec::new();
    let mut i: usize = 0;
    while i < steps
        invariant
            i <= steps,
            steps == wheel_steps_spec(value120, discrete, pixel_steps),
            wheel_direction_spec(value120, discrete, pixel_sign) == Some(direction),
            out@ == Seq::new(i as nat, |k: int| if direction > 0 { Msg::SelectNext } else { Msg::SelectPrev }),
        decreases steps - i,
    {
        out.push(if direction > 0 { Msg::SelectNext } else { Msg::SelectPrev });
        i = i + 1;
        assert(out@ =~= Seq::new(i as nat, |k: int| if direction > 0 { Msg::SelectNext } else { Msg::SelectPrev }));
    }
    out
}

} // verus!
