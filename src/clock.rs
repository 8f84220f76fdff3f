use vstd::prelude::*;

use crate::text::{push_zero_padded, zero_padded};

verus! {

/// A ring of `n_points` evenly spaced dots at distance `radius` from the
/// center of the dial, the first one straight to the right of it.
#[derive(Clone, Copy, Debug, PartialEq, Eq, Structural)]
pub struct Ring {
    pub radius: u32,
    pub n_points: u32,
}

/// The two hands of a clock. The minute hand has turned `minute_steps` of
/// sixty steps of a full turn, the hour hand `hour_steps` of seven hundred and twenty.
#[derive(Clone, Copy, Debug, PartialEq, Eq, Structural)]
pub struct ClockHands {
    pub minute_steps: u32,
    pub hour_steps: u32,
    pub minute_length: u32,
    pub hour_length: u32,
}

/// Everything that decides one clock image: the file it is saved under, the
/// side of its square canvas, the rings of its dial and its hands, if any.
pub struct ClockPlan {
    pub file_name: String,
    pub canvas_dim: usize,
    pub rings: Vec<Ring>,
    pub hands: Option<ClockHands>,
}

/// A clock plan as mathematics.
pub struct ClockPlanView {
    pub file_name: Seq<char>,
    pub canvas_dim: nat,
    pub rings: Seq<Ring>,
    pub hands: Option<ClockHands>,
}

impl View for ClockPlan {
    type V = ClockPlanView;

    open spec fn view(&self) -> ClockPlanView {
        ClockPlanView {
            file_name: self.file_name@,
            canvas_dim: self.canvas_dim as nat,
            rings: self.rings@,
            hands: self.hands,
        }
    }
}

/// Minutes in one turn of the minute hand.
pub const MINUTES_PER_HOUR: u32 = 60;

/// Hour marks on the dial.
pub const HOURS_ON_DIAL: u32 = 12;

/// Minutes in one turn of the hour hand: the number of frames of the animation.
pub const MINUTES_PER_DIAL: u32 = 720;

/// A dial of radius `radius`: for each offset below `spread`, an hour ring
/// that much inside and one that much outside the radius, which thickens the
/// hour marks; then a ring of minute marks on the radius.
pub open spec fn dial_rings(radius: nat, spread: nat) -> Seq<Ring> {
    Seq::new(
        2 * spread,
        |i: int|
            Ring {
                radius: (if i % 2 == 0 {
                    radius - i / 2
                } else {
                    radius + i / 2
                }) as u32,
                n_points: HOURS_ON_DIAL,
            },
    ).push(Ring { radius: radius as u32, n_points: (HOURS_ON_DIAL * 5) as u32 })
}

/// The hands of a clock of radius `radius` showing `minute` minutes past twelve:
/// the minute hand as long as the radius, the hour hand two thirds of it.
pub open spec fn hands_at(radius: nat, minute: nat) -> ClockHands {
    ClockHands {
        minute_steps: (minute % 60) as u32,
        hour_steps: minute as u32,
        minute_length: radius as u32,
        hour_length: (2 * radius / 3) as u32,
    }
}

/// The still image of a large clock face: radius 200, margin 20, hour marks
/// ten pixels thick.
pub open spec fn clock_face_view() -> ClockPlanView {
    ClockPlanView {
        file_name: "ch4_clock_face"@,
        canvas_dim: 440,
        rings: dial_rings(200, 10),
        hands: None,
    }
}

/// Frame `minute` of the animation: a small clock (radius 40, margin 5, hour
/// marks three pixels thick) with its hands `minute` minutes past twelve.
pub open spec fn clock_frame_view(minute: nat) -> ClockPlanView {
    ClockPlanView {
        file_name: "clockframes/clock_"@ + zero_padded(minute, 5),
        canvas_dim: 90,
        rings: dial_rings(40, 3),
        hands: Some(hands_at(40, minute)),
    }
}

/// The images that the clock demo renders: the clock face, then, when asked
/// for, one frame for each minute of a turn of the hour hand.
pub open spec fn clock_things_views(animation: bool) -> Seq<ClockPlanView> {
    if animation {
        seq![clock_face_view()] + Seq::new(MINUTES_PER_DIAL as nat, |m: int| clock_frame_view(m as nat))
    } else {
        seq![clock_face_view()]
    }
}

/// The plans match the views one by one.
pub open spec fn plans_are(plans: Seq<ClockPlan>, views: Seq<ClockPlanView>) -> bool {
    &&& plans.len() == views.len()
    &&& forall|i: int| 0 <= i < plans.len() ==> (#[trigger] plans[i])@ == views[i]
}

/// The rings of a dial; see `dial_rings`.
pub fn clock_dial(radius: u32, spread: u32) -> (r: Vec<Ring>)
    requires
        spread <= radius,
        radius + spread <= u32::MAX,
    ensures
        r@ == dial_rings(radius as nat, spread as nat),
{
    let mut rings: Vec<Ring> = Vec::new();
    let mut rmod: u32 = 0;
    while rmod < spread
        invariant
            rmod <= spread <= radius,
            radius + spread <= u32::MAX,
            rings@ =~= dial_rings(radius as nat, spread as nat).take(2 * rmod),
        decreases spread - rmod,
    {
        rings.push(Ring { radius: radius - rmod, n_points: HOURS_ON_DIAL });
        rings.push(Ring { radius: radius + rmod, n_points: HOURS_ON_DIAL });
        proof {
            let full = dial_rings(radius as nat, spread as nat);
            assert(full[2 * rmod as int] == Ring { radius: (radius - rmod) as u32, n_points: HOURS_ON_DIAL });
            assert(full[2 * rmod + 1] == Ring { radius: (radius + rmod) as u32, n_points: HOURS_ON_DIAL });
            assert(rings@ =~= full.take(2 * rmod + 2));
        }
        rmod += 1;
    }
    rings.push(Ring { radius, n_points: HOURS_ON_DIAL * 5 });
    assert(rings@ =~= dial_rings(radius as nat, spread as nat));
    rings
}

/// The hands of a clock of radius `radius` at `minute`; see `hands_at`.
pub fn clock_hands(radius: u32, minute: u32) -> (h: ClockHands)
    requires
        radius <= u32::MAX / 2,
    ensures
        h == hands_at(radius as nat, minute as nat),
{
    ClockHands {
        minute_steps: minute % MINUTES_PER_HOUR,
        hour_steps: minute,
        minute_length: radius,
        hour_length: 2 * radius / 3,
    }
}

/// The plan of the large clock face.
pub fn ch4_clock_face() -> (p: ClockPlan)
    ensures
        p@ == clock_face_view(),
{
    let radius: u32 = 200;
    let margin: u32 = 20;
    let canvas_dim = ((radius + margin) * 2) as usize;
    ClockPlan {
        file_name: String::from_str("ch4_clock_face"),
        canvas_dim,
        rings: clock_dial(radius, 10),
        hands: None,
    }
}

/// The plan of frame `minute` of the animation.
pub fn render_clock(minute: u32) -> (p: ClockPlan)
    ensures
        p@ == clock_frame_view(minute as nat),
{
    let radius: u32 = 40;
    let margin: u32 = 5;
    let canvas_dim = ((radius + margin) * 2) as usize;
    let mut file_name = String::from_str("clockframes/clock_");
    push_zero_padded(&mut file_name, minute as u64, 5);
    ClockPlan {
        file_name,
        canvas_dim,
        rings: clock_dial(radius, 3),
        hands: Some(clock_hands(radius, minute)),
    }
}

/// The plans of every frame of the animated clock, minute by minute.
pub fn ch4_bonus_animated_clock_frames() -> (r: Vec<ClockPlan>)
    ensures
        plans_are(r@, Seq::new(MINUTES_PER_DIAL as nat, |m: int| clock_frame_view(m as nat))),
{
    let mut frames: Vec<ClockPlan> = Vec::new();
    let mut minute: u32 = 0;
    while minute < MINUTES_PER_DIAL
        invariant
            minute <= MINUTES_PER_DIAL,
            plans_are(frames@, Seq::new(minute as nat, |m: int| clock_frame_view(m as nat))),
        decreases MINUTES_PER_DIAL - minute,
    {
        frames.push(render_clock(minute));
        minute += 1;
    }
    frames
}

/// The plans of the clock demo: the face, then the animation when `animation` is set.
pub fn render_clock_things(animation: bool) -> (r: Vec<ClockPlan>)
    ensures
        plans_are(r@, clock_things_views(animation)),
{
    let mut plans: Vec<ClockPlan> = Vec::new();
    plans.push(ch4_clock_face());
    if animation {
        let mut frames = ch4_bonus_animated_clock_frames();
        plans.append(&mut frames);
    }
    plans
}

} // verus!
