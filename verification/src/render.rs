//! Rendering the hour table as text.
//!
//! Each cell holds the hour's decimal numeral. Without colors the three
//! highlight states use three-character markers — `" 5 "`, `"[5]"`, `">5<"` —
//! so columns stay aligned; with colors the numeral is styled (dim, bold, or
//! bold green) by the terminal library. The rows are laid out as a borderless,
//! column-aligned grid by the table library; both libraries are called through
//! trusted wrappers, and everything else — which marker or style each cell
//! gets, and the row contents — is verified.
use vstd::prelude::*;
use vstd::string::StringExecFns;
use crate::grid::CellState;
use crate::grid::cell_state;
use crate::grid::local_matches;
use crate::hours::MAX_INSTANT;
use crate::hours::ZoneHour;
use crate::hours::names_of;
use crate::hours::ordered_pairs;
use crate::hours::pair_views;
use crate::hours::tz_hours_ordered;
use crate::zone::Zone;

verus! {

/// The decimal digit character for `d`.
pub open spec fn digit_char(d: int) -> char {
    if d == 0 {
        '0'
    } else if d == 1 {
        '1'
    } else if d == 2 {
        '2'
    } else if d == 3 {
        '3'
    } else if d == 4 {
        '4'
    } else if d == 5 {
        '5'
    } else if d == 6 {
        '6'
    } else if d == 7 {
        '7'
    } else if d == 8 {
        '8'
    } else {
        '9'
    }
}

/// The decimal numeral of an hour, without a leading zero.
pub open spec fn hour_digits(h: int) -> Seq<char> {
    if h < 10 {
        seq![digit_char(h)]
    } else {
        seq![digit_char(h / 10), digit_char(h % 10)]
    }
}

/// The hour's decimal numeral as a string slice.
fn hour_str(h: u8) -> (r: &'static str)
    requires
        h < 24,
    ensures
        r@ == hour_digits(h as int),
{
    let r: &'static str = match h {
        0 => "0",
        1 => "1",
        2 => "2",
        3 => "3",
        4 => "4",
        5 => "5",
        6 => "6",
        7 => "7",
        8 => "8",
        9 => "9",
        10 => "10",
        11 => "11",
        12 => "12",
        13 => "13",
        14 => "14",
        15 => "15",
        16 => "16",
        17 => "17",
        18 => "18",
        19 => "19",
        20 => "20",
        21 => "21",
        22 => "22",
        _ => "23",
    };
    proof {
        reveal_strlit("0");
        reveal_strlit("1");
        reveal_strlit("2");
        reveal_strlit("3");
        reveal_strlit("4");
        reveal_strlit("5");
        reveal_strlit("6");
        reveal_strlit("7");
        reveal_strlit("8");
        reveal_strlit("9");
        reveal_strlit("10");
        reveal_strlit("11");
        reveal_strlit("12");
        reveal_strlit("13");
        reveal_strlit("14");
        reveal_strlit("15");
        reveal_strlit("16");
        reveal_strlit("17");
        reveal_strlit("18");
        reveal_strlit("19");
        reveal_strlit("20");
        reveal_strlit("21");
        reveal_strlit("22");
        reveal_strlit("23");
        assert(r@ =~= hour_digits(h as int));
    }
    r
}

/// The plain-text (color-free) rendering of one cell: the numeral padded with
/// spaces when inactive, in brackets when active, in chevrons when
/// active-and-local. All three forms add two characters, so columns align.
pub open spec fn plain_cell(state: CellState, h: int) -> Seq<char> {
    match state {
        CellState::Inactive => seq![' '] + hour_digits(h) + seq![' '],
        CellState::Active => seq!['['] + hour_digits(h) + seq![']'],
        CellState::ActiveLocal => seq!['>'] + hour_digits(h) + seq!['<'],
    }
}

/// Relies on console's `style(..).white().dim()`: its displayed text always
/// holds the decimal hour, wrapped in ANSI escape codes when the crate decides
/// that colors apply to standard output. That decision reads the terminal, so
/// nothing more is claimed of the text.
#[verifier::external_body]
fn style_dim(hour: u8) -> (r: String)
    ensures
        r@.len() > 0,
{
    console::style(hour).white().dim().to_string()
}

/// Relies on console's `style(..).white().bold()`; see `style_dim`.
#[verifier::external_body]
fn style_bold(hour: u8) -> (r: String)
    ensures
        r@.len() > 0,
{
    console::style(hour).white().bold().to_string()
}

/// Relies on console's `style(..).green().bold()`; see `style_dim`.
#[verifier::external_body]
fn style_bold_green(hour: u8) -> (r: String)
    ensures
        r@.len() > 0,
{
    console::style(hour).green().bold().to_string()
}

/// One inactive cell: a dim numeral with colors, `" {hour} "` without.
pub fn hour_fmt_inactive(hour: u8, colors_enabled: bool) -> (r: String)
    requires
        hour < 24,
    ensures
        !colors_enabled ==> r@ == plain_cell(CellState::Inactive, hour as int),
        r@.len() > 0,
{
    if colors_enabled {
        style_dim(hour)
    } else {
        let mut s: String = " ".to_owned();
        s.append(hour_str(hour));
        s.append(" ");
        proof {
            reveal_strlit(" ");
            assert(s@ =~= plain_cell(CellState::Inactive, hour as int));
        }
        s
    }
}

/// One active cell: a bold numeral with colors, `"[{hour}]"` without.
pub fn hour_fmt_active(hour: u8, colors_enabled: bool) -> (r: String)
    requires
        hour < 24,
    ensures
        !colors_enabled ==> r@ == plain_cell(CellState::Active, hour as int),
        r@.len() > 0,
{
    if colors_enabled {
        style_bold(hour)
    } else {
        let mut s: String = "[".to_owned();
        s.append(hour_str(hour));
        s.append("]");
        proof {
            reveal_strlit("[");
            reveal_strlit("]");
            assert(s@ =~= plain_cell(CellState::Active, hour as int));
        }
        s
    }
}

/// One active-and-local cell: a bold green numeral with colors, `">{hour}<"`
/// without.
pub fn hour_fmt_active_local(hour: u8, colors_enabled: bool) -> (r: String)
    requires
        hour < 24,
    ensures
        !colors_enabled ==> r@ == plain_cell(CellState::ActiveLocal, hour as int),
        r@.len() > 0,
{
    if colors_enabled {
        style_bold_green(hour)
    } else {
        let mut s: String = ">".to_owned();
        s.append(hour_str(hour));
        s.append("<");
        proof {
            reveal_strlit(">");
            reveal_strlit("<");
            assert(s@ =~= plain_cell(CellState::ActiveLocal, hour as int));
        }
        s
    }
}

/// The texts of one table row: the zone's name, then the plain renderings of
/// the 24 cells for hours 0..24.
pub open spec fn row_texts(name: Seq<char>, row_hour: int, local_row: bool) -> Seq<Seq<char>> {
    Seq::new(
        25,
        |c: int|
            if c == 0 {
                name
            } else {
                plain_cell(cell_state(row_hour, local_row, c - 1), c - 1)
            },
    )
}

/// Build one row: the zone's name followed by its 24 cells.
pub fn table_row(zh: &ZoneHour, local_row: bool, colors_enabled: bool) -> (r: Vec<String>)
    requires
        zh.hour < 24,
    ensures
        r@.len() == 25,
        r@[0]@ == zh.zone@,
        !colors_enabled ==> r.deep_view() == row_texts(zh.zone@, zh.hour as int, local_row),
{
    let mut cells: Vec<String> = Vec::new();
    cells.push(zh.zone.name().to_owned());
    let mut c: u8 = 0;
    while c < 24
        invariant
            0 <= c <= 24,
            zh.hour < 24,
            cells@.len() == c as int + 1,
            cells@[0]@ == zh.zone@,
            forall|j: int|
                1 <= j <= c ==> !colors_enabled ==> (#[trigger] cells@[j])@ == plain_cell(
                    cell_state(zh.hour as int, local_row, j - 1),
                    j - 1,
                ),
        decreases 24 - c,
    {
        let cell = if c == zh.hour {
            if local_row {
                hour_fmt_active_local(c, colors_enabled)
            } else {
                hour_fmt_active(c, colors_enabled)
            }
        } else {
            hour_fmt_inactive(c, colors_enabled)
        };
        proof {
            assert(cell_state(zh.hour as int, local_row, c as int) == (if c as int
                == zh.hour as int {
                if local_row {
                    CellState::ActiveLocal
                } else {
                    CellState::Active
                }
            } else {
                CellState::Inactive
            }));
        }
        cells.push(cell);
        c = c + 1;
    }
    proof {
        if !colors_enabled {
            assert(cells.deep_view() =~= row_texts(zh.zone@, zh.hour as int, local_row));
        }
    }
    cells
}

/// The rows a table value holds, each row a list of cell texts.
pub uninterp spec fn table_rows(t: comfy_table::Table) -> Seq<Seq<Seq<char>>>;

/// The text the table library renders for the given rows, laid out as a
/// borderless column-aligned grid (the style every table of this library is
/// built with).
pub uninterp spec fn render_of(rows: Seq<Seq<Seq<char>>>) -> Seq<char>;

#[verifier::external_type_specification]
#[verifier::external_body]
pub struct ExTable(comfy_table::Table);

/// Relies on comfy_table's `Table::new` (a table with no rows) and
/// `Table::load_style` with the borderless `presets::NOTHING` style, which
/// changes only the styling, never the rows.
#[verifier::external_body]
fn table_new() -> (t: comfy_table::Table)
    ensures
        table_rows(t) == Seq::<Seq<Seq<char>>>::empty(),
{
    let mut t = comfy_table::Table::new();
    t.load_style(comfy_table::presets::NOTHING);
    t
}

/// Relies on comfy_table's `Table::add_row`: appends one row holding exactly
/// the given cell texts.
#[verifier::external_body]
fn table_add_row(t: &mut comfy_table::Table, cells: Vec<String>)
    ensures
        table_rows(*final(t)) == table_rows(*old(t)).push(cells.deep_view()),
{
    t.add_row(cells);
}

/// Relies on comfy_table's `Display` for `Table`: with the default disabled
/// content arrangement and cells that carry no per-cell styling, the rendered
/// text (one line per row, columns padded to a shared width) is computed from
/// the rows alone.
#[verifier::external_body]
fn table_render(t: &comfy_table::Table) -> (s: String)
    ensures
        s@ == render_of(table_rows(*t)),
{
    t.to_string()
}

/// The name of the machine's own zone, if one was detected.
pub open spec fn local_name(local: Option<Zone>) -> Option<Seq<char>> {
    match local {
        Option::Some(z) => Option::Some(z@),
        Option::None => Option::None,
    }
}

/// The plain-text grid for the ordered (zone, hour) pairs: one row per pair.
pub open spec fn grid_texts(pairs: Seq<(Seq<char>, int)>, local: Option<Seq<char>>) -> Seq<
    Seq<Seq<char>>,
> {
    Seq::new(
        pairs.len(),
        |r: int| row_texts(pairs[r].0, pairs[r].1, local_matches(pairs[r].0, local)),
    )
}

/// The whole table, rendered: one row per distinct zone, ordered ascending by
/// the zone's hour at the instant, each row holding the zone's name and its 24
/// cells. Without colors the text is pinned exactly; with colors the cells are
/// styled by the terminal library, and the shape — the row count, order and
/// zone labels — is still pinned.
pub fn table(zones: &Vec<Zone>, tz_local: &Option<Zone>, instant: i64, colors_enabled: bool) -> (
    out: String)
    requires
        0 <= instant <= MAX_INSTANT,
        forall|i: int| 0 <= i < zones@.len() ==> (#[trigger] zones@[i]).wf(),
    ensures
        !colors_enabled ==> out@ == render_of(
            grid_texts(
                ordered_pairs(names_of(zones@), instant as int),
                local_name(*tz_local),
            ),
        ),
        exists|g: Seq<Seq<Seq<char>>>|
            {
                &&& out@ == render_of(g)
                &&& g.len() == ordered_pairs(names_of(zones@), instant as int).len()
                &&& forall|r: int|
                    0 <= r < g.len() ==> (#[trigger] g[r]).len() == 25 && g[r][0] == ordered_pairs(
                        names_of(zones@),
                        instant as int,
                    )[r].0
            },
{
    let rows = tz_hours_ordered(zones, instant);
    let ghost pairs = pair_views(rows@);
    let mut t = table_new();
    let mut i: usize = 0;
    while i < rows.len()
        invariant
            0 <= i <= rows@.len(),
            pairs == pair_views(rows@),
            forall|j: int| 0 <= j < rows@.len() ==> (#[trigger] rows@[j]).hour < 24,
            table_rows(t).len() == i,
            forall|r: int|
                0 <= r < i ==> (#[trigger] table_rows(t)[r]).len() == 25 && table_rows(t)[r][0]
                    == pairs[r].0,
            !colors_enabled ==> table_rows(t) =~= grid_texts(
                pairs.take(i as int),
                local_name(*tz_local),
            ),
        decreases rows@.len() - i,
    {
        let local_row = match tz_local {
            Some(l) => l.same_zone(&rows[i].zone),
            None => false,
        };
        let cells = table_row(&rows[i], local_row, colors_enabled);
        let ghost old_rows = table_rows(t);
        table_add_row(&mut t, cells);
        proof {
            assert(pairs[i as int] == (rows@[i as int].zone@, rows@[i as int].hour as int));
            assert(local_row == local_matches(pairs[i as int].0, local_name(*tz_local)));
            assert(cells.deep_view().len() == 25);
            assert(cells.deep_view()[0] == cells@[0]@);
            if !colors_enabled {
                assert(table_rows(t) =~= grid_texts(
                    pairs.take(i as int + 1),
                    local_name(*tz_local),
                ));
            }
        }
        i = i + 1;
    }
    proof {
        assert(pairs.take(rows@.len() as int) =~= pairs);
    }
    let out = table_render(&t);
    proof {
        let ghost g = table_rows(t);
        assert(out@ == render_of(g));
    }
    out
}

} // verus!
