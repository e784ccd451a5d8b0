//! Choosing and validating the zone names one run works on.
//!
//! The command-line arguments take precedence; when none are given, the
//! non-empty lines of standard input are used instead. An empty choice is a
//! usage error, and any unknown name fails the whole run.
use vstd::prelude::*;
use crate::zone::InputError;
use crate::zone::Zone;
use crate::zone::all_valid_strings;
use crate::zone::is_valid_zone;
use crate::zone::zones_parse;

verus! {

broadcast use Seq::lemma_filter_push;

pub open spec fn keep_line() -> spec_fn(String) -> bool {
    |l: String| l@.len() > 0
}

/// The non-empty lines, in order.
pub open spec fn nonempty_lines(lines: Seq<String>) -> Seq<String> {
    lines.filter(keep_line())
}

/// The zone-name strings one run works on: the command-line arguments when any
/// are given, otherwise the non-empty lines of standard input.
pub open spec fn chosen_strings(args: Seq<String>, stdin_lines: Seq<String>) -> Seq<String> {
    if args.len() > 0 {
        args
    } else {
        nonempty_lines(stdin_lines)
    }
}

/// Gather and validate the run's zones. Fails with a usage error when neither
/// the arguments nor standard input named any zone, and with an invalid-zone
/// error (carrying the first unknown name verbatim) when a name is unknown.
pub fn read_input(args: Vec<String>, stdin_lines: Vec<String>) -> (r: Result<Vec<Zone>, InputError>)
    ensures
        ({
            let cs = chosen_strings(args@, stdin_lines@);
            &&& (r is Ok <==> cs.len() > 0 && all_valid_strings(cs))
            &&& (r matches Ok(zs) ==> zs@.len() == cs.len() && forall|i: int|
                0 <= i < cs.len() ==> (#[trigger] zs@[i])@ == cs[i]@ && zs@[i].wf())
            &&& (r matches Err(e) ==> (if cs.len() == 0 {
                e matches InputError::NoZones
            } else {
                exists|k: int|
                    {
                        &&& 0 <= k < cs.len()
                        &&& !is_valid_zone((#[trigger] cs[k])@)
                        &&& forall|i: int| 0 <= i < k ==> is_valid_zone((#[trigger] cs[i])@)
                        &&& e matches InputError::InvalidZone(s) && s@ == cs[k]@
                    }
            }))
        }),
{
    if args.len() > 0 {
        zones_parse(args)
    } else {
        let mut lines: Vec<String> = Vec::new();
        let mut i: usize = 0;
        while i < stdin_lines.len()
            invariant
                0 <= i <= stdin_lines@.len(),
                lines@ =~= nonempty_lines(stdin_lines@.take(i as int)),
            decreases stdin_lines@.len() - i,
        {
            proof {
                assert(stdin_lines@.take(i as int + 1) =~= stdin_lines@.take(i as int).push(
                    stdin_lines@[i as int],
                ));
                stdin_lines@.take(i as int).lemma_filter_push(stdin_lines@[i as int], keep_line());
            }
            if !stdin_lines[i].as_str().is_empty() {
                lines.push(stdin_lines[i].clone());
                proof {
                    assert(keep_line()(stdin_lines@[i as int]));
                }
            } else {
                proof {
                    assert(!keep_line()(stdin_lines@[i as int]));
                }
            }
            i = i + 1;
        }
        proof {
            assert(stdin_lines@.take(stdin_lines@.len() as int) =~= stdin_lines@);
        }
        if lines.len() == 0 {
            Err(InputError::NoZones)
        } else {
            zones_parse(lines)
        }
    }
}

} // verus!
