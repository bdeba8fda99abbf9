//! Version 1 of the interface to plugins in libraries of their own: what a call has to bring, and
//! what it answers.

use vstd::prelude::*;

use crate::buffer::SampleMap;

verus! {

/// The version that a plugin has to be built for.
pub const RECORDER_PLUGIN_ABI_VERSION: u32 = 1;

/// The name of the function that a plugin exports.
pub const RECORDER_PLUGIN_ENTRY_V1: &'static str = "recorder_plugin_entry_v1";

/// The answer of a call that did its work.
pub const PLUGIN_OK: i32 = 0;

/// The answer of a call without an instance, a frame or a place for the result.
pub const PLUGIN_NULL: i32 = -1;

/// The answer of a call with a frame that has no samples.
pub const PLUGIN_NO_DATA: i32 = -2;

/// The answer of a call with too little room for the result.
pub const PLUGIN_NO_ROOM: i32 = -3;

/// What a call brings: which pointers are set, the layout of the frame, and the room for samples.
#[derive(Debug, Clone, Copy)]
pub struct PluginCall {
    pub has_user: bool,
    pub has_frame: bool,
    pub has_out: bool,
    pub has_data: bool,
    pub frames: usize,
    pub channels: u16,
    pub out_len: usize,
}

/// How many samples a frame holds; no more than can be counted.
pub open spec fn call_samples(c: PluginCall) -> int {
    let n = c.frames * c.channels;
    if n <= usize::MAX {
        n
    } else {
        usize::MAX as int
    }
}

/// How many samples a call works on, or what it answers instead.
pub fn check_call(c: PluginCall) -> (r: Result<usize, i32>)
    ensures
        r is Ok == (c.has_user && c.has_frame && c.has_out && c.has_data && call_samples(c)
            <= c.out_len),
        r matches Ok(n) ==> n == call_samples(c),
        r matches Err(e) ==> e == if !c.has_user || !c.has_frame || !c.has_out {
            PLUGIN_NULL
        } else if !c.has_data {
            PLUGIN_NO_DATA
        } else {
            PLUGIN_NO_ROOM
        },
{
    if !c.has_user || !c.has_frame || !c.has_out {
        return Err(PLUGIN_NULL);
    }
    if !c.has_data {
        return Err(PLUGIN_NO_DATA);
    }
    let n: usize = match c.frames.checked_mul(c.channels as usize) {
        Some(n) => n,
        None => usize::MAX,
    };
    if n > c.out_len {
        return Err(PLUGIN_NO_ROOM);
    }
    Ok(n)
}

/// What an example plugin writes: its gain applied to each of the samples.
pub fn apply_gain<S: Copy, M: SampleMap<S, S>>(gain: &M, samples: &[S]) -> (out: Vec<S>)
    ensures
        out@.len() == samples@.len(),
        forall|i: int|
            0 <= i < samples@.len() ==> call_ensures(
                M::apply,
                (gain, samples@[i]),
                #[trigger] out@[i],
            ),
{
    let mut out: Vec<S> = Vec::new();
    let mut i: usize = 0;
    while i < samples.len()
        invariant
            i <= samples@.len(),
            out@.len() == i,
            forall|k: int|
                0 <= k < i ==> call_ensures(M::apply, (gain, samples@[k]), #[trigger] out@[k]),
        decreases samples@.len() - i,
    {
        out.push(gain.apply(samples[i]));
        i += 1;
    }
    out
}

/// A call needs a sample for every channel of every frame.
pub proof fn a_call_needs_every_sample(c: PluginCall)
    ensures
        c.frames * c.channels <= usize::MAX ==> call_samples(c) == c.frames * c.channels,
        c.frames * c.channels > usize::MAX ==> call_samples(c) == usize::MAX,
{
}

} // verus!
