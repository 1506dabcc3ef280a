//! The commands of the tool.

use crate::error::HMSimError;
use crate::record::Request;
use crate::text::push_spaces;
use rand::rngs::StdRng;
use vstd::prelude::*;
use vstd::string::*;
use vstd::utf8::encode_utf8;

pub mod generate_tape_trace;
pub mod generate_trace;
pub mod origin_to_sim;
pub mod trace_foot_size;

verus! {

/// The commands, each as a method.
pub struct Pine;

/// `text` with spaces in front of it up to a width of `width` characters.
pub open spec fn right_aligned(text: Seq<char>, width: nat) -> Seq<char> {
    if text.len() >= width {
        text
    } else {
        Seq::new((width - text.len()) as nat, |i: int| ' ') + text
    }
}

/// The lines that show the footprint and the volume of the trace in `file`.
pub open spec fn report_text(file: Seq<char>, footprint: Seq<char>, volume: Seq<char>) -> Seq<
    char,
> {
    seq!['t', 'r', 'a', 'c', 'e', 'f', 'i', 'l', 'e', ':', ' '] + file + seq![
        '\n',
        'f',
        'o',
        'o',
        't',
        'p',
        'r',
        'i',
        'n',
        't',
        ':',
        ' ',
    ] + right_aligned(footprint, 7) + seq!['\n', 'v', 'o', 'l', 'u', 'm', 'e', ':', ' ']
        + right_aligned(volume, 10)
}

fn push_right_aligned(text: &mut String, field: &str, width: usize)
    ensures
        final(text)@ == old(text)@ + right_aligned(field@, width as nat),
{
    let n = field.unicode_len();
    if n < width {
        push_spaces(text, width - n);
    }
    text.append(field);
    assert(text@ =~= old(text)@ + right_aligned(field@, width as nat));
}

impl Pine {
    /// Nothing to do.
    pub fn generate_trace(&self) -> (done: Result<(), HMSimError>)
        ensures
            done is Ok,
    {
        Ok(())
    }

    /// The lines to show for the trace that `lines` hold, read from `file`:
    /// its name, its footprint and its volume.
    pub fn trace_foot_size(&self, file: &str, lines: &Vec<String>) -> (shown: Result<
        String,
        HMSimError,
    >)
        ensures
            match shown {
                Ok(text) => trace_foot_size::report_of(trace_foot_size::line_bytes(lines@))
                    matches Ok(sizes) && text@ == report_text(file@, sizes.0, sizes.1),
                Err(refusal) => trace_foot_size::report_of(trace_foot_size::line_bytes(lines@))
                    == Err::<(Seq<char>, Seq<char>), HMSimError>(refusal),
            },
    {
        let (footprint, volume) = match trace_foot_size::trace_foot_size(lines) {
            Ok(sizes) => sizes,
            Err(refusal) => {
                return Err(refusal);
            },
        };
        proof {
            reveal_strlit("tracefile: ");
            reveal_strlit("\nfootprint: ");
            reveal_strlit("\nvolume: ");
        }
        let mut text = "tracefile: ".to_owned();
        text.append(file);
        text.append("\nfootprint: ");
        push_right_aligned(&mut text, footprint.as_str(), 7);
        text.append("\nvolume: ");
        push_right_aligned(&mut text, volume.as_str(), 10);
        assert(text@ =~= report_text(file@, footprint@, volume@));
        Ok(text)
    }

    /// Converts one record of a vendor trace.
    pub fn origin_to_sim(&self, kind: &str, offset: &str, length: &str) -> (converted: Result<
        Request,
        HMSimError,
    >)
        ensures
            converted == origin_to_sim::origin_request(
                encode_utf8(kind@),
                encode_utf8(offset@),
                encode_utf8(length@),
            ),
    {
        origin_to_sim::origin_to_sim(kind, offset, length)
    }

    /// Runs the generation that `tape_trace_struct` configures.
    pub fn generate_tape_trace(
        &self,
        tape_trace_struct: generate_tape_trace::TapeTrace,
        rng: &mut StdRng,
    ) -> (run: Result<generate_tape_trace::GeneratedTrace, HMSimError>)
        ensures
            run is Ok <==> tape_trace_struct.runnable() && !tape_trace_struct.sampled(),
            run matches Ok(generated) ==> tape_trace_struct.is_run(generated),
            run matches Err(refusal) ==> refusal == HMSimError::CommandError,
    {
        generate_tape_trace::generate_tape_trace(tape_trace_struct, rng)
    }
}

} // verus!
