//! The mock speech and language provider used in load tests: how its
//! canned speech is cut into streamed frames, the validation of the recording
//! it speaks, and the choice of its port.

use vstd::prelude::*;
use crate::text::{decimal, decimal_string, push_str, text_is};

verus! {

/// Bytes of one streamed 20 ms frame of 16 kHz mono 16-bit PCM.
pub const MOCK_TTS_FRAME_BYTES: usize = 640;

/// Block `k` of `pcm` cut into 640-byte frames (the last may be shorter).
pub open spec fn pcm_frame(pcm: Seq<u8>, k: int) -> Seq<u8> {
    pcm.subrange(640 * k, if 640 * k + 640 <= pcm.len() { 640 * k + 640 } else { pcm.len() as int })
}

/// Number of frames `n` bytes make.
pub open spec fn pcm_frame_count(n: nat) -> nat {
    ((n + 639) / 640) as nat
}

/// Cuts PCM into the frames the speech endpoint streams, 640 bytes each
/// but the last.
pub fn split_pcm_frames(pcm: &[u8]) -> (frames: Vec<Vec<u8>>)
    ensures
        frames@.len() == pcm_frame_count(pcm@.len()),
        forall|k: int| 0 <= k < frames@.len() ==> #[trigger] frames@[k]@ == pcm_frame(pcm@, k),
{
    let mut frames: Vec<Vec<u8>> = Vec::new();
    let mut start: usize = 0;
    while start < pcm.len()
        invariant
            start <= pcm@.len(),
            start < pcm@.len() ==> start == 640 * frames@.len(),
            frames@.len() == pcm_frame_count(start as nat),
            forall|q: int| 0 <= q < frames@.len() ==> #[trigger] frames@[q]@ == pcm_frame(pcm@, q),
        decreases pcm@.len() - start,
    {
        let end = if pcm.len() - start >= MOCK_TTS_FRAME_BYTES { start + MOCK_TTS_FRAME_BYTES } else { pcm.len() };
        let frame = vstd::slice::slice_to_vec(vstd::slice::slice_subrange(pcm, start, end));
        let ghost k = frames@.len() as int;
        assert(frame@ == pcm_frame(pcm@, k));
        assert((end + 639) / 640 == k + 1) by (nonlinear_arith)
            requires
                start == 640 * k,
                start < end,
                end <= start + 640,
        ;
        frames.push(frame);
        start = end;
    }
    frames
}

/// Why the embedded recording cannot be spoken, if it cannot: it must be
/// mono 16-bit integer PCM.
pub open spec fn embedded_wav_problem(channels: u16, bits_per_sample: u16, is_float: bool) -> Option<Seq<char>> {
    if channels != 1 {
        Some("embedded TTS wav must be mono, got "@ + decimal(channels as nat) + " channels"@)
    } else if bits_per_sample != 16 || is_float {
        Some("embedded TTS wav must be 16-bit PCM, got bits_per_sample="@ + decimal(bits_per_sample as nat)
            + " sample_format="@ + (if is_float { "Float"@ } else { "Int"@ }))
    } else {
        None
    }
}

/// Checks the format of the embedded recording.
pub fn check_embedded_wav(channels: u16, bits_per_sample: u16, is_float: bool) -> (r: Result<(), String>)
    ensures
        match embedded_wav_problem(channels, bits_per_sample, is_float) {
            None => r is Ok,
            Some(m) => r matches Err(e) && e@ == m,
        },
{
    if channels != 1 {
        let mut m = String::new();
        push_str(&mut m, "embedded TTS wav must be mono, got ");
        let c = decimal_string(channels as u64);
        push_str(&mut m, c.as_str());
        push_str(&mut m, " channels");
        Err(m)
    } else if bits_per_sample != 16 || is_float {
        let mut m = String::new();
        push_str(&mut m, "embedded TTS wav must be 16-bit PCM, got bits_per_sample=");
        let b = decimal_string(bits_per_sample as u64);
        push_str(&mut m, b.as_str());
        push_str(&mut m, " sample_format=");
        if is_float {
            push_str(&mut m, "Float");
        } else {
            push_str(&mut m, "Int");
        }
        Err(m)
    } else {
        Ok(())
    }
}

/// The value given after the first `--port` among the arguments that has
/// one after it.
pub open spec fn port_argument_at(args: Seq<String>, i: int) -> bool {
    0 <= i && i + 1 < args.len() && args[i]@ == "--port"@
}

/// The text given for `--port` on the command line, if any.
pub fn port_argument(args: &[String]) -> (r: Option<&String>)
    ensures
        match r {
            Some(v) => exists|i: int| port_argument_at(args@, i) && *v == args@[i + 1]
                && forall|j: int| 0 <= j < i ==> !port_argument_at(args@, j),
            None => forall|j: int| !port_argument_at(args@, j),
        },
{
    let mut i: usize = 0;
    while i < args.len() && i + 1 < args.len()
        invariant
            i <= args.len(),
            forall|j: int| 0 <= j < i ==> !port_argument_at(args@, j),
        decreases args@.len() - i,
    {
        if text_is(&args[i], "--port") {
            assert(port_argument_at(args@, i as int));
            return Some(&args[i + 1]);
        }
        i += 1;
    }
    assert forall|j: int| !port_argument_at(args@, j) by {
        if 0 <= j && j + 1 < args@.len() {
            assert(j < i);
        }
    }
    None
}

} // verus!
