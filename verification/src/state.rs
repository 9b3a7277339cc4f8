use vstd::prelude::*;
use vstd::string::*;
use crate::helper::{Bitmap, convert_to_bytes, encode_image, palette};

verus! {

/// A point in time as seconds and nanoseconds since the Unix epoch.
#[derive(Debug, PartialEq, Eq, Structural, Copy, Clone)]
pub struct Timestamp {
    pub secs: u64,
    pub nanos: u32,
}

impl Timestamp {
    /// The time in nanoseconds since the epoch.
    pub open spec fn total_nanos(self) -> int {
        self.secs * 1_000_000_000 + self.nanos
    }
}

/// The number of bytes that the relay cycles through.
pub open spec fn cycle_length() -> int {
    48
}

/// The least time, in nanoseconds, that must pass before the image is saved again.
pub open spec fn save_interval_nanos() -> int {
    20_000_000_000
}

/// The relay state: whether it runs, when the image was last saved, the
/// image's size, the counters of bytes taken in and given out, the image's
/// file name and its encoded bytes.
pub struct State {
    pub is_running: bool,
    pub last_update: Timestamp,
    pub width: u32,
    pub height: u32,
    pub cnt_out: usize,
    pub cnt_in: usize,
    pub file_name: String,
    pub image_bytes: Vec<u8>,
}

/// The contents of a relay state.
pub struct StateView {
    pub is_running: bool,
    pub last_update: Timestamp,
    pub width: u32,
    pub height: u32,
    pub cnt_out: usize,
    pub cnt_in: usize,
    pub file_name: Seq<char>,
    pub image_bytes: Seq<u8>,
}

impl View for State {
    type V = StateView;

    open spec fn view(&self) -> StateView {
        StateView {
            is_running: self.is_running,
            last_update: self.last_update,
            width: self.width,
            height: self.height,
            cnt_out: self.cnt_out,
            cnt_in: self.cnt_in,
            file_name: self.file_name@,
            image_bytes: self.image_bytes@,
        }
    }
}

/// Whether more than the save interval has passed from `last` to `now`.
pub open spec fn save_due(last: Timestamp, now: Timestamp) -> bool {
    now.total_nanos() - last.total_nanos() > save_interval_nanos()
}

/// A save is due exactly when more than twenty seconds, counted in
/// nanoseconds from seconds and nanoseconds, have passed; taking a byte in
/// moves the time of the last save to `now` exactly then and otherwise keeps it.
pub proof fn law_save_due_after_twenty_seconds(s: StateView, v: u8, now: Timestamp)
    ensures
        save_due(s.last_update, now) <==> (now.secs * 1_000_000_000 + now.nanos) - (
        s.last_update.secs * 1_000_000_000 + s.last_update.nanos) > 20_000_000_000,
        after_byte_in(s, v, now).last_update == (if (now.secs * 1_000_000_000 + now.nanos) - (
        s.last_update.secs * 1_000_000_000 + s.last_update.nanos) > 20_000_000_000 {
            now
        } else {
            s.last_update
        }),
{
}

/// The message of a refused `byte_in`.
pub open spec fn byte_in_refusal() -> Seq<char> {
    "cannot take any bytes, state is not running"@
}

/// The message of a refused `byte_out`.
pub open spec fn byte_out_refusal() -> Seq<char> {
    "cannot give you byte, state is not running"@
}

/// The state after a running state takes in byte `v` at time `now`.
pub open spec fn after_byte_in(s: StateView, v: u8, now: Timestamp) -> StateView {
    let idx = (s.cnt_in as int) % cycle_length();
    let due = save_due(s.last_update, now);
    StateView {
        image_bytes: s.image_bytes.update(idx, v),
        cnt_in: (idx + 1) as usize,
        last_update: if due {
            now
        } else {
            s.last_update
        },
        ..s
    }
}

/// The byte that a running state gives out next.
pub open spec fn next_byte_out(s: StateView) -> u8 {
    s.image_bytes[(s.cnt_out as int) % cycle_length()]
}

/// The state after a running state gives out a byte.
pub open spec fn after_byte_out(s: StateView) -> StateView {
    StateView { cnt_out: ((s.cnt_out as int) % cycle_length() + 1) as usize, ..s }
}

/// A byte taken in at the place where the output counter points is the byte
/// given out next.
pub proof fn law_byte_in_then_out(s: StateView, v: u8, now: Timestamp)
    requires
        (s.cnt_in as int) % cycle_length() == (s.cnt_out as int) % cycle_length(),
        (s.cnt_in as int) % cycle_length() < s.image_bytes.len(),
    ensures
        next_byte_out(after_byte_in(s, v, now)) == v,
{
}

/// Giving a byte out leaves the image as it was and moves the output counter
/// one past the place it read.
pub proof fn law_byte_out_keeps_image(s: StateView)
    ensures
        after_byte_out(s).image_bytes == s.image_bytes,
        after_byte_out(s).cnt_out as int == (s.cnt_out as int) % cycle_length() + 1,
{
}

/// Whether more than twenty seconds have passed from `last` to `now`.
fn is_save_due(last: Timestamp, now: Timestamp) -> (due: bool)
    ensures
        due == save_due(last, now),
{
    let last_nanos: u128 = last.secs as u128 * 1_000_000_000u128 + last.nanos as u128;
    let now_nanos: u128 = now.secs as u128 * 1_000_000_000u128 + now.nanos as u128;
    if now_nanos > last_nanos {
        now_nanos - last_nanos > 20_000_000_000u128
    } else {
        false
    }
}

impl State {
    /// A running state for the given image, saved at `now`, with both
    /// counters at zero and the image held in its encoded form.
    pub fn new(filename: &str, img: &Bitmap, now: Timestamp) -> (state: State)
        requires
            img.wf(),
            palette(img.pixels@).len() <= 256,
            img.pixels@.len() <= i32::MAX,
        ensures
            state@.is_running,
            state@.last_update == now,
            state@.width == img.width,
            state@.height == img.height,
            state@.cnt_out == 0,
            state@.cnt_in == 0,
            state@.file_name == filename@,
            state@.image_bytes == encode_image(img.pixels@),
    {
        let bytes = convert_to_bytes(img);
        State {
            is_running: true,
            last_update: now,
            width: img.width,
            height: img.height,
            cnt_out: 0,
            cnt_in: 0,
            file_name: String::from_str(filename),
            image_bytes: bytes,
        }
    }

    /// Lets the state take and give bytes.
    pub fn start(&mut self)
        ensures
            final(self)@ == (StateView { is_running: true, ..old(self)@ }),
    {
        self.is_running = true;
    }

    /// Stops the state from taking and giving bytes.
    pub fn stop(&mut self)
        ensures
            final(self)@ == (StateView { is_running: false, ..old(self)@ }),
    {
        self.is_running = false;
    }

    /// Sets both counters back to zero.
    pub fn reset(&mut self)
        ensures
            final(self)@ == (StateView { cnt_in: 0, cnt_out: 0, ..old(self)@ }),
    {
        self.cnt_in = 0;
        self.cnt_out = 0;
    }

    /// Counts one more byte taken in.
    pub fn increment_in(&mut self)
        requires
            old(self)@.cnt_in < usize::MAX,
        ensures
            final(self)@ == (StateView { cnt_in: (old(self)@.cnt_in + 1) as usize, ..old(self)@ }),
    {
        self.cnt_in += 1;
    }

    /// Counts one more byte given out.
    pub fn increment_out(&mut self)
        requires
            old(self)@.cnt_out < usize::MAX,
        ensures
            final(self)@ == (StateView {
                cnt_out: (old(self)@.cnt_out + 1) as usize,
                ..old(self)@
            }),
    {
        self.cnt_out += 1;
    }

    /// Takes in byte `v` at time `now`. While the state runs, the byte is
    /// written at the input counter taken modulo 48, the counter moves one
    /// past that place, and the result tells whether more than twenty seconds
    /// have passed since the image was last saved, in which case `now` becomes
    /// the time of the last save and the image is due to be saved. A stopped
    /// state refuses the byte and stays as it was.
    pub fn byte_in(&mut self, v: u8, now: Timestamp) -> (res: Result<bool, &'static str>)
        requires
            old(self)@.is_running ==> (old(self)@.cnt_in as int) % cycle_length() < old(
                self,
            )@.image_bytes.len(),
            old(self)@.is_running ==> old(self)@.last_update.total_nanos() <= now.total_nanos(),
        ensures
            !old(self)@.is_running ==> final(self)@ == old(self)@,
            !old(self)@.is_running ==> (res matches Err(msg) && msg@ == byte_in_refusal()),
            old(self)@.is_running ==> res == Ok::<bool, &'static str>(
                save_due(old(self)@.last_update, now),
            ),
            old(self)@.is_running ==> final(self)@ == after_byte_in(old(self)@, v, now),
    {
        if self.is_running {
            self.cnt_in = self.cnt_in % (16 * 3);
            self.image_bytes.set(self.cnt_in, v);
            let due = is_save_due(self.last_update, now);
            if due {
                self.last_update = now;
            }
            self.increment_in();
            Ok(due)
        } else {
            Err("cannot take any bytes, state is not running")
        }
    }

    /// Gives out the byte at the output counter taken modulo 48, and moves
    /// the counter one past that place. A stopped state refuses and stays as
    /// it was.
    pub fn byte_out(&mut self) -> (res: Result<u8, &'static str>)
        requires
            old(self)@.is_running ==> (old(self)@.cnt_out as int) % cycle_length() < old(
                self,
            )@.image_bytes.len(),
        ensures
            !old(self)@.is_running ==> final(self)@ == old(self)@,
            !old(self)@.is_running ==> (res matches Err(msg) && msg@ == byte_out_refusal()),
            old(self)@.is_running ==> res == Ok::<u8, &'static str>(next_byte_out(old(self)@)),
            old(self)@.is_running ==> final(self)@ == after_byte_out(old(self)@),
    {
        if self.is_running {
            self.cnt_out = self.cnt_out % (16 * 3);
            let v = self.image_bytes[self.cnt_out];
            self.increment_out();
            Ok(v)
        } else {
            Err("cannot give you byte, state is not running")
        }
    }
}

} // verus!
