//! The screen's input and output: turning the touch controller's raw events
//! into presses, moves and releases, and copying a rendered frame into the
//! framebuffer row by row.
use vstd::prelude::*;

verus! {

/// One raw event of the touch controller.
#[derive(Debug, Clone, Copy, PartialEq, Eq)]
pub enum TouchInput {
    /// The absolute X axis moved to this value.
    AbsX(i32),
    /// The absolute Y axis moved to this value.
    AbsY(i32),
    /// The touch button changed to this value (non-zero: touching).
    Touch(i32),
    /// The end of a batch of events.
    Sync,
    /// Anything else.
    Other,
}

/// What the screen reacts to, at raw controller coordinates.
#[derive(Debug, Clone, Copy, PartialEq, Eq)]
pub enum TouchEvent {
    Down { x: u32, y: u32 },
    Move { x: u32, y: u32 },
    Up { x: u32, y: u32 },
}

/// Where the finger is, whether it touches, and whether it moved since the
/// last batch.
#[derive(Debug, Clone, Copy, PartialEq, Eq)]
pub struct TouchState {
    pub cx: i32,
    pub cy: i32,
    pub pressed: bool,
    pub had_move: bool,
}

/// The state after one raw event, and what it reports: a press when the touch
/// starts, a release when it ends, a move at the end of a batch in which the
/// finger moved while touching.
pub open spec fn touch_step(s: TouchState, input: TouchInput) -> (TouchState, Option<TouchEvent>) {
    match input {
        TouchInput::AbsX(v) => (TouchState { cx: v, had_move: true, ..s }, None),
        TouchInput::AbsY(v) => (TouchState { cy: v, had_move: true, ..s }, None),
        TouchInput::Touch(v) => {
            let now = v != 0;
            let ev = if now && !s.pressed {
                Some(TouchEvent::Down { x: s.cx as u32, y: s.cy as u32 })
            } else if !now && s.pressed {
                Some(TouchEvent::Up { x: s.cx as u32, y: s.cy as u32 })
            } else {
                None
            };
            (TouchState { pressed: now, ..s }, ev)
        },
        TouchInput::Sync => {
            let ev = if s.pressed && s.had_move {
                Some(TouchEvent::Move { x: s.cx as u32, y: s.cy as u32 })
            } else {
                None
            };
            (TouchState { had_move: false, ..s }, ev)
        },
        TouchInput::Other => (s, None),
    }
}

impl TouchState {
    /// Nothing touched yet, at the origin.
    pub fn new() -> (r: Self)
        ensures
            r == (TouchState { cx: 0, cy: 0, pressed: false, had_move: false }),
    {
        TouchState { cx: 0, cy: 0, pressed: false, had_move: false }
    }

    /// Takes one raw event (see `touch_step`).
    pub fn step(&mut self, input: TouchInput) -> (r: Option<TouchEvent>)
        ensures
            (*final(self), r) == touch_step(*old(self), input),
    {
        match input {
            TouchInput::AbsX(v) => {
                self.cx = v;
                self.had_move = true;
                None
            },
            TouchInput::AbsY(v) => {
                self.cy = v;
                self.had_move = true;
                None
            },
            TouchInput::Touch(v) => {
                let now = v != 0;
                #[verifier::truncate]
                let x = self.cx as u32;
                #[verifier::truncate]
                let y = self.cy as u32;
                let ev = if now && !self.pressed {
                    Some(TouchEvent::Down { x, y })
                } else if !now && self.pressed {
                    Some(TouchEvent::Up { x, y })
                } else {
                    None
                };
                self.pressed = now;
                ev
            },
            TouchInput::Sync => {
                #[verifier::truncate]
                let x = self.cx as u32;
                #[verifier::truncate]
                let y = self.cy as u32;
                let ev = if self.pressed && self.had_move {
                    Some(TouchEvent::Move { x, y })
                } else {
                    None
                };
                self.had_move = false;
                ev
            },
            TouchInput::Other => None,
        }
    }
}

/// Presses and releases alternate: a press is reported only when not touching,
/// a release only when touching, a move only while touching; and after any
/// event the state says whether the finger touches as the last press or release
/// said.
pub proof fn law_presses_and_releases_alternate(s: TouchState, input: TouchInput)
    ensures
        touch_step(s, input).1 matches Some(TouchEvent::Down { .. }) ==> !s.pressed && touch_step(s, input).0.pressed,
        touch_step(s, input).1 matches Some(TouchEvent::Up { .. }) ==> s.pressed && !touch_step(s, input).0.pressed,
        touch_step(s, input).1 matches Some(TouchEvent::Move { .. }) ==> s.pressed && touch_step(s, input).0.pressed,
        !(input is Touch) ==> touch_step(s, input).0.pressed == s.pressed,
{
}

/// The frame after copying rows `y..h` of a rendered image into it: each row of
/// `2 * w` bytes goes from `2 * w * y` in the image to `2 * stride * y` in the
/// frame, stopping at the first row that does not fit in either.
pub open spec fn rows_copied(frame: Seq<u8>, src: Seq<u8>, w: nat, stride: nat, y: nat, h: nat) -> Seq<u8>
    decreases h - y,
{
    if y >= h {
        frame
    } else {
        let row = 2 * w;
        let s0 = y * row;
        let d0 = 2 * stride * y;
        if d0 + row > frame.len() || s0 + row > src.len() {
            frame
        } else {
            let next = frame.subrange(0, d0 as int) + src.subrange(s0 as int, (s0 + row) as int) + frame.subrange(
                (d0 + row) as int,
                frame.len() as int,
            );
            rows_copied(next, src, w, stride, y + 1, h)
        }
    }
}

/// The frame after a rendered image is copied into it: when the frame's rows
/// are as wide as the image's, as many bytes as both hold, at once; otherwise
/// row by row (see `rows_copied`).
pub open spec fn frame_after_flush(frame: Seq<u8>, src: Seq<u8>, w: nat, h: nat, stride: nat) -> Seq<u8> {
    if stride == w {
        let n = if src.len() < frame.len() { src.len() } else { frame.len() };
        src.subrange(0, n as int) + frame.subrange(n as int, frame.len() as int)
    } else {
        rows_copied(frame, src, w, stride, 0, h)
    }
}

/// Copies a rendered image of `w` by `h` two-byte pixels into the framebuffer,
/// whose rows are `stride` pixels apart (see `frame_after_flush`). The offsets
/// of the last row must fit in a `usize`.
pub fn flush_rows(src: &Vec<u8>, frame: &mut Vec<u8>, w: usize, h: usize, stride: usize)
    requires
        2 * w * h + 2 * w <= usize::MAX,
        2 * stride * h + 2 * w <= usize::MAX,
    ensures
        final(frame)@ == frame_after_flush(old(frame)@, src@, w as nat, h as nat, stride as nat),
{
    if stride == w {
        let n = if src.len() < frame.len() { src.len() } else { frame.len() };
        let mut i: usize = 0;
        while i < n
            invariant
                n <= src@.len(),
                n <= frame@.len(),
                i <= n,
                frame@.len() == old(frame)@.len(),
                frame@ == src@.subrange(0, i as int) + old(frame)@.subrange(i as int, old(frame)@.len() as int),
            decreases n - i,
        {
            frame.set(i, src[i]);
            proof {
                assert(frame@ =~= src@.subrange(0, i + 1) + old(frame)@.subrange(i + 1, old(frame)@.len() as int));
            }
            i = i + 1;
        }
        return;
    }
    let row = 2 * w;
    let mut y: usize = 0;
    while y < h
        invariant
            row == 2 * w,
            y <= h,
            2 * w * h + 2 * w <= usize::MAX,
            2 * stride * h + 2 * w <= usize::MAX,
            stride != w,
            frame@.len() == old(frame)@.len(),
            rows_copied(frame@, src@, w as nat, stride as nat, y as nat, h as nat)
                == rows_copied(old(frame)@, src@, w as nat, stride as nat, 0, h as nat),
        decreases h - y,
    {
        proof {
            assert(y * row <= 2 * w * h) by (nonlinear_arith)
                requires
                    y <= h,
                    row == 2 * w,
            ;
            assert(2 * stride * y <= 2 * stride * h) by (nonlinear_arith)
                requires
                    y <= h,
            ;
            assert(2 * stride <= 2 * stride * h) by (nonlinear_arith)
                requires
                    y < h,
            ;
        }
        let s0 = y * row;
        let d0 = 2 * stride * y;
        if d0 + row > frame.len() || s0 + row > src.len() {
            return;
        }
        let ghost before = frame@;
        let mut j: usize = 0;
        while j < row
            invariant
                j <= row,
                d0 + row <= usize::MAX,
                s0 + row <= usize::MAX,
                d0 + row <= frame@.len(),
                s0 + row <= src@.len(),
                frame@.len() == before.len(),
                frame@ == before.subrange(0, d0 as int) + src@.subrange(s0 as int, (s0 + j) as int) + before.subrange(
                    (d0 + j) as int,
                    before.len() as int,
                ),
            decreases row - j,
        {
            frame.set(d0 + j, src[s0 + j]);
            proof {
                assert(frame@ =~= before.subrange(0, d0 as int) + src@.subrange(s0 as int, (s0 + j + 1) as int)
                    + before.subrange((d0 + j + 1) as int, before.len() as int));
            }
            j = j + 1;
        }
        y = y + 1;
    }
}

} // verus!
