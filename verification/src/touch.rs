//! The touch controller: what its registers say, and what a touch means.
use vstd::prelude::*;
use vstd::std_specs::convert::FromSpecImpl;

verus! {

/// Bus address of the controller.
pub const CST816D_ADDR: u8 = 0x15;

/// Register that identifies the chip.
pub const REG_CHIP_ID: u8 = 0xA3;

/// First register of a touch report: gesture, finger count, then the position.
pub const REG_GESTURE: u8 = 0x01;

/// Travel, in pixels, from which a touch is a swipe and no tap.
pub const SWIPE_MIN_PX: i32 = 40;

#[derive(Debug, Clone, Copy, PartialEq, Eq, Structural)]
pub struct TouchPoint {
    pub x: u16,
    pub y: u16,
    pub gesture: Gesture,
}

/// Gestures the controller recognises itself.
#[derive(Debug, Clone, Copy, PartialEq, Eq, Structural)]
pub enum Gesture {
    NoGesture,
    SlideDown,
    SlideUp,
    SlideLeft,
    SlideRight,
    SingleClick,
    DoubleClick,
    LongPress,
    Unknown(u8),
}

/// What a touch means. The direction of a swipe is taken from where the touch
/// began and ended: the controller's own vertical labels are the wrong way
/// round for this panel.
#[derive(Debug, Clone, Copy, PartialEq, Eq, Structural)]
pub enum TouchEvent {
    Tap { x: u16, y: u16 },
    SwipeLeft,
    SwipeRight,
    SwipeUp,
    SwipeDown,
}

pub open spec fn distance(a: int, b: int) -> int {
    if a <= b {
        b - a
    } else {
        a - b
    }
}

/// What a touch from `first` to `last` means: the longer axis decides, the
/// horizontal one where both are equally long.
pub open spec fn meaning(first: TouchPoint, last: TouchPoint) -> TouchEvent {
    let across = distance(first.x as int, last.x as int);
    let along = distance(first.y as int, last.y as int);
    if across >= SWIPE_MIN_PX && across >= along {
        if last.x < first.x {
            TouchEvent::SwipeLeft
        } else {
            TouchEvent::SwipeRight
        }
    } else if along >= SWIPE_MIN_PX {
        if last.y < first.y {
            TouchEvent::SwipeUp
        } else {
            TouchEvent::SwipeDown
        }
    } else {
        TouchEvent::Tap { x: last.x, y: last.y }
    }
}

/// Classifies a touch from where it started and where it ended.
pub fn classify(first: TouchPoint, last: TouchPoint) -> (event: TouchEvent)
    ensures
        event == meaning(first, last),
{
    let dx: i32 = last.x as i32 - first.x as i32;
    let dy: i32 = last.y as i32 - first.y as i32;
    let across: i32 = if dx < 0 {
        -dx
    } else {
        dx
    };
    let along: i32 = if dy < 0 {
        -dy
    } else {
        dy
    };
    if across >= SWIPE_MIN_PX && across >= along {
        return if dx < 0 {
            TouchEvent::SwipeLeft
        } else {
            TouchEvent::SwipeRight
        };
    }
    if along >= SWIPE_MIN_PX {
        return if dy < 0 {
            TouchEvent::SwipeUp
        } else {
            TouchEvent::SwipeDown
        };
    }
    TouchEvent::Tap { x: last.x, y: last.y }
}

/// The opposite of a swipe.
pub open spec fn opposite(event: TouchEvent) -> TouchEvent {
    match event {
        TouchEvent::Tap { x, y } => TouchEvent::Tap { x, y },
        TouchEvent::SwipeLeft => TouchEvent::SwipeRight,
        TouchEvent::SwipeRight => TouchEvent::SwipeLeft,
        TouchEvent::SwipeUp => TouchEvent::SwipeDown,
        TouchEvent::SwipeDown => TouchEvent::SwipeUp,
    }
}

/// The same touch the other way round is the opposite swipe, and a tap stays a
/// tap.
pub proof fn reversed_touch_means_the_opposite(first: TouchPoint, last: TouchPoint)
    ensures
        if meaning(first, last) is Tap {
            meaning(last, first) is Tap
        } else {
            meaning(last, first) == opposite(meaning(first, last))
        },
{
}

impl Gesture {
    /// The gesture with the given number.
    pub open spec fn numbered(v: u8) -> Gesture {
        if v == 0x00 {
            Gesture::NoGesture
        } else if v == 0x01 {
            Gesture::SlideDown
        } else if v == 0x02 {
            Gesture::SlideUp
        } else if v == 0x03 {
            Gesture::SlideLeft
        } else if v == 0x04 {
            Gesture::SlideRight
        } else if v == 0x05 {
            Gesture::SingleClick
        } else if v == 0x0B {
            Gesture::DoubleClick
        } else if v == 0x0C {
            Gesture::LongPress
        } else {
            Gesture::Unknown(v)
        }
    }
}

impl From<u8> for Gesture {
    fn from(v: u8) -> (g: Gesture) {
        match v {
            0x00 => Gesture::NoGesture,
            0x01 => Gesture::SlideDown,
            0x02 => Gesture::SlideUp,
            0x03 => Gesture::SlideLeft,
            0x04 => Gesture::SlideRight,
            0x05 => Gesture::SingleClick,
            0x0B => Gesture::DoubleClick,
            0x0C => Gesture::LongPress,
            other => Gesture::Unknown(other),
        }
    }
}

impl FromSpecImpl<u8> for Gesture {
    open spec fn obeys_from_spec() -> bool {
        true
    }

    open spec fn from_spec(v: u8) -> Gesture {
        Gesture::numbered(v)
    }
}

/// The touch in a report of seven registers: there is one if the finger count is
/// odd and not all ones; a coordinate is twelve bits, the upper four first.
pub open spec fn reported(report: Seq<u8>) -> Option<TouchPoint> {
    if report[1] == 0xFF || report[1] % 2 == 0 {
        None
    } else {
        Some(
            TouchPoint {
                x: (report[2] % 16 * 256 + report[3]) as u16,
                y: (report[4] % 16 * 256 + report[5]) as u16,
                gesture: Gesture::numbered(report[0]),
            },
        )
    }
}

/// A controller on a bus.
pub struct Cst816d<I2C> {
    pub i2c: I2C,
    pub addr: u8,
}

impl<I2C> Cst816d<I2C> {
    /// A controller at `addr`, given what reading its chip id gave.
    pub fn new<E>(i2c: I2C, addr: u8, chip_id: Result<u8, E>) -> (r: Result<Cst816d<I2C>, E>)
        ensures
            match chip_id {
                Ok(_) => r == Ok::<Cst816d<I2C>, E>(Cst816d { i2c, addr }),
                Err(e) => r == Err::<Cst816d<I2C>, E>(e),
            },
    {
        match chip_id {
            Ok(_) => Ok(Cst816d { i2c, addr }),
            Err(e) => Err(e),
        }
    }

    /// Where a finger touches, if one does, given what reading the report
    /// registers gave.
    pub fn read<E>(&self, report: Result<[u8; 7], E>) -> (r: Result<Option<TouchPoint>, E>)
        ensures
            match report {
                Ok(registers) => r == Ok::<Option<TouchPoint>, E>(reported(registers@)),
                Err(e) => r == Err::<Option<TouchPoint>, E>(e),
            },
    {
        let buf = match report {
            Ok(buf) => buf,
            Err(e) => {
                return Err(e);
            },
        };
        if buf[1] == 0xFF || buf[1] % 2 == 0 {
            return Ok(None);
        }
        let x: u16 = (buf[2] % 16) as u16 * 256 + buf[3] as u16;
        let y: u16 = (buf[4] % 16) as u16 * 256 + buf[5] as u16;
        Ok(Some(TouchPoint { x, y, gesture: Gesture::from(buf[0]) }))
    }
}

// ---------- From reports to events ----------
/// A touch in progress: where it began, and where it was last seen.
#[derive(Debug, Clone, Copy)]
pub struct TouchTracker {
    pub first: Option<TouchPoint>,
    pub last: Option<TouchPoint>,
}

/// What to do after one poll of the controller.
#[derive(Debug, Clone, Copy)]
pub enum TouchStep {
    /// The finger is down: poll again.
    KeepPolling,
    /// The touch is over, with the event it was, if it was one.
    Over(Option<TouchEvent>),
}

impl TouchTracker {
    /// Nothing seen yet.
    pub open spec fn fresh(self) -> bool {
        self.first is None && self.last is None
    }

    /// Either nothing was seen, or both ends of a touch are known.
    pub open spec fn consistent(self) -> bool {
        self.first is Some <==> self.last is Some
    }

    pub fn new() -> (t: TouchTracker)
        ensures
            t.fresh(),
            t.consistent(),
    {
        TouchTracker { first: None, last: None }
    }

    /// Takes in one poll: a position, a lifted finger, or a failed read.
    pub fn on_read<E>(&mut self, read: Result<Option<TouchPoint>, E>) -> (step: TouchStep)
        requires
            old(self).consistent(),
        ensures
            final(self).consistent(),
            match read {
                Ok(Some(p)) => {
                    &&& step is KeepPolling
                    &&& final(self).first == (if old(self).first is None {
                        Some(p)
                    } else {
                        old(self).first
                    })
                    &&& final(self).last == Some(p)
                },
                Ok(None) => {
                    &&& final(self).fresh()
                    &&& step == TouchStep::Over(
                        match (old(self).first, old(self).last) {
                            (Some(a), Some(b)) => Some(meaning(a, b)),
                            _ => None,
                        },
                    )
                },
                Err(_) => final(self).fresh() && step == TouchStep::Over(None),
            },
    {
        match read {
            Ok(Some(p)) => {
                if self.first.is_none() {
                    self.first = Some(p);
                }
                self.last = Some(p);
                TouchStep::KeepPolling
            },
            Ok(None) => {
                let event = match (self.first, self.last) {
                    (Some(a), Some(b)) => Some(classify(a, b)),
                    _ => None,
                };
                self.first = None;
                self.last = None;
                TouchStep::Over(event)
            },
            Err(_) => {
                self.first = None;
                self.last = None;
                TouchStep::Over(None)
            },
        }
    }
}

/// Whether an event abandons a turn in progress: any swipe does, a tap does not.
pub fn abandons_turn(event: TouchEvent) -> (r: bool)
    ensures
        r == !(event is Tap),
{
    match event {
        TouchEvent::Tap { .. } => false,
        _ => true,
    }
}

/// Swipes follow the finger: a touch that travelled at least forty pixels is a
/// swipe along its longer axis, the way the finger went, and sideways if both are
/// equally long; any shorter one is a tap where the finger was lifted.
pub proof fn swipes_follow_the_finger(first: TouchPoint, last: TouchPoint)
    ensures
        ({
            let dx = last.x - first.x;
            let dy = last.y - first.y;
            let event = meaning(first, last);
            &&& event is SwipeRight <==> dx >= 40 && dx >= dy && dx >= -dy
            &&& event is SwipeLeft <==> dx <= -40 && -dx >= dy && -dx >= -dy
            &&& event is SwipeDown <==> dy >= 40 && dy > dx && dy > -dx
            &&& event is SwipeUp <==> dy <= -40 && -dy > dx && -dy > -dx
            &&& event is Tap <==> -40 < dx < 40 && -40 < dy < 40
            &&& event matches TouchEvent::Tap { x, y } ==> x == last.x && y == last.y
        }),
{
}

/// A report gives a finger's position as it was put in: its lower eight bits in a
/// register of their own, the upper four in the lower half of the register
/// ahead of it. There is a finger if the count is odd, but not if it is 255.
pub proof fn reports_give_the_position(report: Seq<u8>)
    requires
        report.len() == 7,
    ensures
        reported(report) is Some <==> report[1] % 2 == 1 && report[1] < 255,
        reported(report) matches Some(p) ==> {
            &&& p.x < 4096 && p.x % 256 == report[3] && p.x / 256 == report[2] % 16
            &&& p.y < 4096 && p.y % 256 == report[5] && p.y / 256 == report[4] % 16
            &&& p.gesture == Gesture::numbered(report[0])
        },
{
}

/// Gestures are told apart by their numbers: different numbers are different
/// gestures, and each known one has its own.
pub proof fn gestures_have_their_numbers(v: u8, w: u8)
    ensures
        Gesture::numbered(v) == Gesture::numbered(w) ==> v == w,
        Gesture::numbered(v) is NoGesture <==> v == 0,
        Gesture::numbered(v) is SlideDown <==> v == 1,
        Gesture::numbered(v) is SlideUp <==> v == 2,
        Gesture::numbered(v) is SlideLeft <==> v == 3,
        Gesture::numbered(v) is SlideRight <==> v == 4,
        Gesture::numbered(v) is SingleClick <==> v == 5,
        Gesture::numbered(v) is DoubleClick <==> v == 11,
        Gesture::numbered(v) is LongPress <==> v == 12,
        Gesture::numbered(v) matches Gesture::Unknown(n) ==> n == v,
{
}

} // verus!
