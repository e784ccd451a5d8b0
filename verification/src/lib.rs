//! A verified library for a small clock-table utility: it takes a list of
//! time-zone names, computes the wall-clock hour in each zone at one captured
//! instant, and renders a borderless 24-column table in which each zone's
//! current hour is highlighted (and highlighted differently when the zone is
//! the machine's own configured zone).
//!
//! [`run`] is the whole pipeline over plain values: the caller hands it the
//! command-line arguments, the lines of standard input, the environment's
//! zone override, one captured instant, and whether the output supports
//! colors, and gets back either the rendered table or the error to report.
use vstd::prelude::*;

mod grid;
mod hours;
mod input;
mod render;
mod zone;

pub use grid::CellState;
pub use grid::cell_state;
pub use grid::lemma_exactly_one_active;
pub use grid::lemma_local_row_unique;
pub use grid::lemma_no_local_without_override;
pub use grid::local_matches;
pub use grid::row_states;
pub use hours::MAX_INSTANT;
pub use hours::ZoneHour;
pub use hours::hour_at;
pub use hours::names_of;
pub use hours::ordered_pairs;
pub use hours::pair_views;
pub use hours::tz_hours_ordered;
pub use input::chosen_strings;
pub use input::nonempty_lines;
pub use input::read_input;
pub use render::grid_texts;
pub use render::hour_digits;
pub use render::hour_fmt_active;
pub use render::hour_fmt_active_local;
pub use render::hour_fmt_inactive;
pub use render::local_name;
pub use render::plain_cell;
pub use render::render_of;
pub use render::row_texts;
pub use render::table;
pub use render::table_row;
pub use zone::InputError;
pub use zone::Zone;
pub use zone::all_valid_strings;
pub use zone::is_valid_zone;
pub use zone::tz_local;
pub use zone::zones_parse;

verus! {

/// The views of a list of strings.
pub open spec fn string_views(ss: Seq<String>) -> Seq<Seq<char>> {
    ss.map(|i: int, s: String| s@)
}

/// The machine's zone name as one run sees it: the environment override when
/// it names a known zone, and nothing otherwise.
pub open spec fn local_of(tz_env: Option<String>) -> Option<Seq<char>> {
    match tz_env {
        Option::Some(s) => if is_valid_zone(s@) {
            Option::Some(s@)
        } else {
            Option::None
        },
        Option::None => Option::None,
    }
}

/// One whole run: choose the zone names (arguments first, else the non-empty
/// lines of standard input), validate them, and render the hour table for the
/// captured instant. Fails with a usage error when no zone name was supplied,
/// and with an invalid-zone error naming the first unknown name when one does
/// not parse — in both cases without producing any table.
pub fn run(
    args: Vec<String>,
    stdin_lines: Vec<String>,
    tz_env: Option<String>,
    instant: i64,
    colors_enabled: bool,
) -> (r: Result<String, InputError>)
    requires
        0 <= instant <= MAX_INSTANT,
    ensures
        ({
            let cs = chosen_strings(args@, stdin_lines@);
            &&& (r is Ok <==> cs.len() > 0 && all_valid_strings(cs))
            &&& (r matches Err(e) ==> (if cs.len() == 0 {
                e matches InputError::NoZones
            } else {
                exists|k: int|
                    {
                        &&& 0 <= k < cs.len()
                        &&& !is_valid_zone((#[trigger] cs[k])@)
                        &&& forall|i: int| 0 <= i < k ==> is_valid_zone((#[trigger] cs[i])@)
                        &&& e matches InputError::InvalidZone(s) && s@ == cs[k]@
                    }
            }))
            &&& (r matches Ok(out) ==> (!colors_enabled ==> out@ == render_of(
                grid_texts(
                    ordered_pairs(string_views(cs), instant as int),
                    local_of(tz_env),
                ),
            )))
            &&& (r matches Ok(out) ==> exists|g: Seq<Seq<Seq<char>>>|
                {
                    &&& out@ == render_of(g)
                    &&& g.len() == ordered_pairs(string_views(cs), instant as int).len()
                    &&& forall|rw: int|
                        0 <= rw < g.len() ==> (#[trigger] g[rw]).len() == 25 && g[rw][0]
                            == ordered_pairs(string_views(cs), instant as int)[rw].0
                })
        }),
{
    let ghost gargs = args@;
    let ghost glines = stdin_lines@;
    let ghost genv = tz_env;
    let zones = match read_input(args, stdin_lines) {
        Ok(z) => z,
        Err(e) => {
            return Err(e);
        },
    };
    let local = tz_local(tz_env);
    proof {
        let cs = chosen_strings(gargs, glines);
        assert(names_of(zones@) =~= string_views(cs));
        assert(local_name(local) == local_of(genv));
    }
    let out = table(&zones, &local, instant, colors_enabled);
    Ok(out)
}

} // verus!
