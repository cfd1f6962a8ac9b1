//! What `displayctl list` shows: one row per online display, laid out in
//! left-aligned columns under a header.

use vstd::prelude::*;
use vstd::utf8::{encode_scalar, encode_utf8};
use crate::text::{decimal, decimal_value, digit_char, is_digit, law_pad_right, lemma_digit, pad_right, push_decimal, push_padded, spaces};

verus! {

/// The status word of a display: `active`, else `mirror` when it is in a
/// mirror set, else `inactive`.
pub open spec fn status_text(active: bool, mirrored: bool) -> Seq<char> {
    if active {
        "active"@
    } else if mirrored {
        "mirror"@
    } else {
        "inactive"@
    }
}

/// An active display is `active` whatever its mirroring; an inactive one is
/// `mirror` when mirrored and `inactive` otherwise.
pub proof fn law_status_words(active: bool, mirrored: bool)
    ensures
        active ==> status_text(active, mirrored) == seq!['a', 'c', 't', 'i', 'v', 'e'],
        !active && mirrored ==> status_text(active, mirrored) == seq!['m', 'i', 'r', 'r', 'o', 'r'],
        !active && !mirrored ==> status_text(active, mirrored) == seq![
            'i',
            'n',
            'a',
            'c',
            't',
            'i',
            'v',
            'e',
        ],
{
    reveal_strlit("active");
    reveal_strlit("mirror");
    reveal_strlit("inactive");
    assert(status_text(active, mirrored) =~= if active {
        seq!['a', 'c', 't', 'i', 'v', 'e']
    } else if mirrored {
        seq!['m', 'i', 'r', 'r', 'o', 'r']
    } else {
        seq!['i', 'n', 'a', 'c', 't', 'i', 'v', 'e']
    });
}

/// The status word of a display, from whether it is active and whether it is
/// in a mirror set.
pub fn display_status(active: bool, mirrored: bool) -> (s: &'static str)
    ensures
        s@ == status_text(active, mirrored),
{
    if active {
        "active"
    } else if mirrored {
        "mirror"
    } else {
        "inactive"
    }
}

/// The current mode of a display: its size in points and in pixels, and
/// its refresh rate in hundredths of a hertz, rounded to the nearest
/// hundredth (`None` where the rate is not positive).
#[derive(Clone, Copy, Debug, PartialEq, Eq, Structural)]
pub struct ModeInfo {
    pub width: usize,
    pub height: usize,
    pub pixel_width: usize,
    pub pixel_height: usize,
    pub refresh_centihertz: Option<u64>,
}

/// `WxH`, as `format!("{}x{}", w, h)` writes it.
pub open spec fn dimensions_text(w: nat, h: nat) -> Seq<char> {
    decimal(w) + "x"@ + decimal(h)
}

/// A rate of `centi` hundredths of a hertz with two decimals, as
/// `format!("{:.2}Hz", rate)` writes it.
pub open spec fn refresh_text(centi: nat) -> Seq<char> {
    decimal(centi / 100) + "."@ + seq![digit_char((centi % 100) / 10), digit_char(centi % 10)]
        + "Hz"@
}

/// The MODE, NATIVE and REFRESH columns of a display whose current mode is
/// `mode` (`None` where it could not be read).
pub open spec fn mode_columns(mode: Option<ModeInfo>) -> (Seq<char>, Seq<char>, Seq<char>) {
    match mode {
        None => ("-"@, "-"@, "-"@),
        Some(m) => (
            dimensions_text(m.width as nat, m.height as nat),
            if m.width != m.pixel_width || m.height != m.pixel_height {
                dimensions_text(m.pixel_width as nat, m.pixel_height as nat)
            } else {
                "-"@
            },
            match m.refresh_centihertz {
                Some(c) => refresh_text(c as nat),
                None => "-"@,
            },
        ),
    }
}

fn dimensions_string(w: usize, h: usize) -> (s: String)
    ensures
        s@ == dimensions_text(w as nat, h as nat),
{
    let mut s = String::new();
    push_decimal(&mut s, w as u64);
    s.append("x");
    push_decimal(&mut s, h as u64);
    s
}

fn refresh_string(centi: u64) -> (s: String)
    ensures
        s@ == refresh_text(centi as nat),
{
    let mut s = String::new();
    push_decimal(&mut s, centi / 100);
    s.append(".");
    let ghost before = s@;
    push_decimal(&mut s, (centi % 100) / 10);
    push_decimal(&mut s, centi % 10);
    s.append("Hz");
    proof {
        assert(decimal(((centi % 100) / 10) as nat) == seq![digit_char(((centi % 100) / 10) as nat)]);
        assert(decimal((centi % 10) as nat) == seq![digit_char((centi % 10) as nat)]);
        assert(s@ =~= refresh_text(centi as nat));
    }
    s
}

/// The MODE, NATIVE and REFRESH columns of a display: its size in points,
/// its size in pixels where that differs, and its refresh rate; `-` for what
/// is unknown or the same.
pub fn display_mode_info(mode: Option<ModeInfo>) -> (r: (String, String, String))
    ensures
        (r.0@, r.1@, r.2@) == mode_columns(mode),
        mode matches Some(m) ==> r.0@ == decimal(m.width as nat) + seq!['x'] + decimal(
            m.height as nat,
        ),
{
    proof {
        law_mode_columns(mode);
    }
    match mode {
        None => (String::from_str("-"), String::from_str("-"), String::from_str("-")),
        Some(m) => {
            let mode_str = dimensions_string(m.width, m.height);
            let native = if m.width != m.pixel_width || m.height != m.pixel_height {
                dimensions_string(m.pixel_width, m.pixel_height)
            } else {
                String::from_str("-")
            };
            let refresh = match m.refresh_centihertz {
                Some(c) => refresh_string(c),
                None => String::from_str("-"),
            };
            (mode_str, native, refresh)
        },
    }
}


/// The MODE column is the width, `x`, then the height; NATIVE is the pixel
/// width, `x`, then the pixel height where they differ from the mode and
/// `-` where they do not; REFRESH is the whole hertz, `.`, two digits that
/// read as the hundredths, then `Hz`. Everything is `-` where the mode is
/// unknown.
pub proof fn law_mode_columns(mode: Option<ModeInfo>)
    ensures
        mode is None ==> mode_columns(mode) == (seq!['-'], seq!['-'], seq!['-']),
        mode matches Some(m) ==> mode_columns(mode).0 == decimal(m.width as nat) + seq!['x']
            + decimal(m.height as nat),
        mode matches Some(m) ==> (m.width != m.pixel_width || m.height != m.pixel_height)
            ==> mode_columns(mode).1 == decimal(m.pixel_width as nat) + seq!['x'] + decimal(
            m.pixel_height as nat,
        ),
        mode matches Some(m) ==> (m.width == m.pixel_width && m.height == m.pixel_height)
            ==> mode_columns(mode).1 == seq!['-'],
        mode matches Some(m) ==> m.refresh_centihertz is None ==> mode_columns(mode).2 == seq!['-'],
        mode matches Some(m) ==> m.refresh_centihertz matches Some(c) ==> {
            let t = mode_columns(mode).2;
            let d = decimal((c / 100) as nat);
            &&& t.len() == d.len() + 5
            &&& t.take(d.len() as int) == d
            &&& t[d.len() as int] == '.'
            &&& is_digit(t[d.len() as int + 1])
            &&& is_digit(t[d.len() as int + 2])
            &&& decimal_value(t.subrange(d.len() as int + 1, d.len() as int + 3)) == c % 100
            &&& t.skip(d.len() as int + 3) == seq!['H', 'z']
        },
{
    reveal_strlit("-");
    reveal_strlit("x");
    reveal_strlit(".");
    reveal_strlit("Hz");
    if let Some(m) = mode {
        assert(mode_columns(mode).0 =~= decimal(m.width as nat) + seq!['x'] + decimal(
            m.height as nat,
        ));
        if m.width != m.pixel_width || m.height != m.pixel_height {
            assert(mode_columns(mode).1 =~= decimal(m.pixel_width as nat) + seq!['x'] + decimal(
                m.pixel_height as nat,
            ));
        }
        if let Some(c) = m.refresh_centihertz {
            let t = mode_columns(mode).2;
            let d = decimal((c / 100) as nat);
            let a = ((c % 100) / 10) as nat;
            let b = (c % 10) as nat;
            lemma_digit(a);
            lemma_digit(b);
            assert(t =~= d + seq!['.'] + seq![digit_char(a), digit_char(b)] + seq!['H', 'z']);
            assert(t.take(d.len() as int) =~= d);
            let two = t.subrange(d.len() as int + 1, d.len() as int + 3);
            assert(two =~= seq![digit_char(a), digit_char(b)]);
            assert(two.drop_last() =~= seq![digit_char(a)]);
            assert(seq![digit_char(a)].drop_last() =~= Seq::<char>::empty());
            assert(decimal_value(Seq::<char>::empty()) == 0);
            assert(decimal_value(seq![digit_char(a)]) == a);
            assert(decimal_value(two) == a * 10 + b);
            assert(a * 10 + b == c % 100);
            assert(t.skip(d.len() as int + 3) =~= seq!['H', 'z']);
        }
    }
}

/// The name shown for a display: the product name where one was found, else
/// `Built-in Display` or `External Display`.
pub open spec fn name_text(name: Option<Seq<char>>, builtin: bool) -> Seq<char> {
    match name {
        Some(n) => n,
        None => if builtin {
            "Built-in Display"@
        } else {
            "External Display"@
        },
    }
}


/// A display's own product name is shown as it is; without one, a built-in
/// display is called `Built-in Display` and any other `External Display`.
pub proof fn law_name_fallback(name: Option<Seq<char>>, builtin: bool)
    ensures
        name matches Some(n) ==> name_text(name, builtin) == n,
        name is None && builtin ==> name_text(name, builtin) == "Built-in Display"@,
        name is None && !builtin ==> name_text(name, builtin) == "External Display"@,
        "Built-in Display"@ != "External Display"@,
{
    reveal_strlit("Built-in Display");
    reveal_strlit("External Display");
    assert("Built-in Display"@[0] != "External Display"@[0]);
}

/// The name shown for a display, from the product name found for it (if
/// any) and whether it is built in.
pub fn display_name(name: Option<String>, builtin: bool) -> (s: String)
    ensures
        s@ == name_text(opt_view(name), builtin),
{
    match name {
        Some(n) => n,
        None => if builtin {
            String::from_str("Built-in Display")
        } else {
            String::from_str("External Display")
        },
    }
}

/// The UUID shown for a display, `unknown` where none could be read.
pub fn display_uuid_text(uuid: Option<String>) -> (s: String)
    ensures
        s@ == match uuid {
            Some(u) => u@,
            None => "unknown"@,
        },
{
    match uuid {
        Some(u) => u,
        None => String::from_str("unknown"),
    }
}

/// One line of the listing, before layout.
pub struct DisplayRow {
    pub name: String,
    pub status: String,
    pub mode: String,
    pub native: String,
    pub refresh: String,
    pub uuid: String,
}

impl View for DisplayRow {
    type V = Seq<Seq<char>>;

    /// The six cells of the row, left to right.
    open spec fn view(&self) -> Seq<Seq<char>> {
        seq![self.name@, self.status@, self.mode@, self.native@, self.refresh@, self.uuid@]
    }
}


/// The shown text of an optional string.
pub open spec fn opt_view(s: Option<String>) -> Option<Seq<char>> {
    match s {
        Some(t) => Some(t@),
        None => None,
    }
}

impl DisplayRow {
    /// The row of a display, from its product name (if found), whether it is
    /// built in, its status word, its current mode (if readable) and its UUID
    /// (if readable).
    pub fn new(
        name: Option<String>,
        builtin: bool,
        status: &str,
        mode: Option<ModeInfo>,
        uuid: Option<String>,
    ) -> (row: DisplayRow)
        ensures
            row@ == seq![
                name_text(opt_view(name), builtin),
                status@,
                mode_columns(mode).0,
                mode_columns(mode).1,
                mode_columns(mode).2,
                match uuid {
                    Some(u) => u@,
                    None => "unknown"@,
                },
            ],
    {
        let uuid = display_uuid_text(uuid);
        let name = display_name(name, builtin);
        let (mode, native, refresh) = display_mode_info(mode);
        DisplayRow { name, status: String::from_str(status), mode, native, refresh, uuid }
    }
}

/// The header cells.
pub open spec fn header_cells() -> Seq<Seq<char>> {
    seq!["NAME"@, "STATUS"@, "MODE"@, "NATIVE"@, "REFRESH"@, "UUID"@]
}

/// The narrowest each column may be: the length of its header.
pub open spec fn min_widths() -> Seq<nat> {
    seq![4, 6, 4, 6, 7, 4]
}

/// The number of bytes in the UTF-8 encoding of `s`, which is what
/// `str::len` counts.
pub open spec fn byte_len(s: Seq<char>) -> nat {
    encode_utf8(s).len()
}

/// The width of column `col` over the first `n` rows: the largest byte
/// length of a cell there, and at least the column's minimum.
pub open spec fn column_width(rows: Seq<Seq<Seq<char>>>, col: int, n: int) -> nat
    decreases n,
{
    if n <= 0 {
        min_widths()[col]
    } else {
        let w = column_width(rows, col, n - 1);
        let b = byte_len(rows[n - 1][col]);
        if b > w {
            b
        } else {
            w
        }
    }
}

/// The widths of all six columns.
pub open spec fn column_widths(rows: Seq<Seq<Seq<char>>>) -> Seq<nat> {
    Seq::new(6, |col: int| column_width(rows, col, rows.len() as int))
}

/// The first `n` cells, each left-aligned in its column, separated by two
/// spaces.
pub open spec fn line_prefix(cells: Seq<Seq<char>>, widths: Seq<nat>, n: int) -> Seq<char>
    decreases n,
{
    if n <= 0 {
        Seq::empty()
    } else if n == 1 {
        pad_right(cells[0], widths[0])
    } else {
        line_prefix(cells, widths, n - 1) + "  "@ + pad_right(cells[n - 1], widths[n - 1])
    }
}

/// A whole line of the listing.
pub open spec fn line(cells: Seq<Seq<char>>, widths: Seq<nat>) -> Seq<char> {
    line_prefix(cells, widths, 6)
}

/// The lines of the listing: nothing for no displays, else the header and
/// then one line per display, in order, all laid out with the same widths.
pub open spec fn table(rows: Seq<Seq<Seq<char>>>) -> Seq<Seq<char>> {
    if rows.len() == 0 {
        Seq::empty()
    } else {
        seq![line(header_cells(), column_widths(rows))] + rows.map_values(
            |r: Seq<Seq<char>>| line(r, column_widths(rows)),
        )
    }
}


/// The number of characters in a line laid out with `widths`: the six
/// widths and the five two-space separators.
pub open spec fn line_width(widths: Seq<nat>) -> nat {
    widths[0] + widths[1] + widths[2] + widths[3] + widths[4] + widths[5] + 10
}

proof fn lemma_chars_at_most_bytes(s: Seq<char>)
    ensures
        s.len() <= byte_len(s),
    decreases s.len(),
{
    if s.len() > 0 {
        lemma_chars_at_most_bytes(s.drop_first());
        assert(encode_scalar(s[0] as u32).len() >= 1);
    }
}

proof fn lemma_column_width_bounds(rows: Seq<Seq<Seq<char>>>, col: int, n: int)
    ensures
        column_width(rows, col, n) >= min_widths()[col],
        forall|i: int| 0 <= i < n ==> column_width(rows, col, n) >= byte_len(#[trigger] rows[i][col]),
    decreases n,
{
    if n > 0 {
        lemma_column_width_bounds(rows, col, n - 1);
    }
}

proof fn lemma_pad_len(s: Seq<char>, w: nat)
    requires
        s.len() <= w,
    ensures
        pad_right(s, w).len() == w,
{
}

proof fn lemma_line_len(cells: Seq<Seq<char>>, widths: Seq<nat>)
    requires
        cells.len() == 6,
        widths.len() == 6,
        forall|c: int| 0 <= c < 6 ==> #[trigger] cells[c].len() <= widths[c],
    ensures
        line(cells, widths).len() == line_width(widths),
{
    reveal_strlit("  ");
    assert(cells[0].len() <= widths[0]);
    assert(cells[1].len() <= widths[1]);
    assert(cells[2].len() <= widths[2]);
    assert(cells[3].len() <= widths[3]);
    assert(cells[4].len() <= widths[4]);
    assert(cells[5].len() <= widths[5]);
    lemma_pad_len(cells[0], widths[0]);
    lemma_pad_len(cells[1], widths[1]);
    lemma_pad_len(cells[2], widths[2]);
    lemma_pad_len(cells[3], widths[3]);
    lemma_pad_len(cells[4], widths[4]);
    lemma_pad_len(cells[5], widths[5]);
    assert(line_prefix(cells, widths, 1).len() == widths[0]);
    assert(line_prefix(cells, widths, 2).len() == widths[0] + widths[1] + 2);
    assert(line_prefix(cells, widths, 3).len() == widths[0] + widths[1] + widths[2] + 4);
    assert(line_prefix(cells, widths, 4).len() == widths[0] + widths[1] + widths[2] + widths[3]
        + 6);
    assert(line_prefix(cells, widths, 5).len() == widths[0] + widths[1] + widths[2] + widths[3]
        + widths[4] + 8);
}


proof fn lemma_column_width_attained(rows: Seq<Seq<Seq<char>>>, col: int, n: int)
    ensures
        column_width(rows, col, n) == min_widths()[col] || exists|i: int|
            0 <= i < n && column_width(rows, col, n) == byte_len(#[trigger] rows[i][col]),
    decreases n,
{
    if n > 0 {
        lemma_column_width_attained(rows, col, n - 1);
        if column_width(rows, col, n) != min_widths()[col] && column_width(rows, col, n)
            != column_width(rows, col, n - 1) {
            assert(column_width(rows, col, n) == byte_len(rows[n - 1][col]));
        }
    }
}

/// Each column is exactly as wide as its widest cell in bytes, or as its
/// header where that is wider; the minimum width of a column is the length
/// of its header.
pub proof fn law_column_widths(rows: Seq<Seq<Seq<char>>>)
    ensures
        column_widths(rows).len() == 6,
        forall|c: int| 0 <= c < 6 ==> #[trigger] min_widths()[c] == header_cells()[c].len(),
        forall|c: int| 0 <= c < 6 ==> #[trigger] column_widths(rows)[c] >= min_widths()[c],
        forall|c: int, i: int|
            0 <= c < 6 && 0 <= i < rows.len() ==> column_widths(rows)[c] >= byte_len(
                #[trigger] rows[i][c],
            ),
        forall|c: int|
            0 <= c < 6 ==> #[trigger] column_widths(rows)[c] == min_widths()[c] || exists|i: int|
                0 <= i < rows.len() && column_widths(rows)[c] == byte_len(#[trigger] rows[i][c]),
{
    reveal_strlit("NAME");
    reveal_strlit("STATUS");
    reveal_strlit("MODE");
    reveal_strlit("NATIVE");
    reveal_strlit("REFRESH");
    reveal_strlit("UUID");
    let n = rows.len() as int;
    assert forall|c: int| 0 <= c < 6 implies #[trigger] min_widths()[c] == header_cells()[c].len() by {
    }
    assert forall|c: int, i: int| 0 <= c < 6 && 0 <= i < rows.len() implies column_widths(rows)[c]
        >= byte_len(#[trigger] rows[i][c]) by {
        lemma_column_width_bounds(rows, c, n);
    }
    assert forall|c: int| 0 <= c < 6 implies #[trigger] column_widths(rows)[c] >= min_widths()[c]
        && (column_widths(rows)[c] == min_widths()[c] || exists|i: int|
        0 <= i < rows.len() && column_widths(rows)[c] == byte_len(#[trigger] rows[i][c])) by {
        lemma_column_width_bounds(rows, c, n);
        lemma_column_width_attained(rows, c, n);
    }
}


proof fn lemma_line_is_concat(cells: Seq<Seq<char>>, widths: Seq<nat>)
    ensures
        line(cells, widths) == pad_right(cells[0], widths[0]) + seq![' ', ' '] + pad_right(
            cells[1],
            widths[1],
        ) + seq![' ', ' '] + pad_right(cells[2], widths[2]) + seq![' ', ' '] + pad_right(
            cells[3],
            widths[3],
        ) + seq![' ', ' '] + pad_right(cells[4], widths[4]) + seq![' ', ' '] + pad_right(
            cells[5],
            widths[5],
        ),
{
    reveal_strlit("  ");
    let sp = seq![' ', ' '];
    assert("  "@ =~= sp);
    let p0 = pad_right(cells[0], widths[0]);
    let p1 = pad_right(cells[1], widths[1]);
    let p2 = pad_right(cells[2], widths[2]);
    let p3 = pad_right(cells[3], widths[3]);
    let p4 = pad_right(cells[4], widths[4]);
    assert(line_prefix(cells, widths, 1) == p0);
    assert(line_prefix(cells, widths, 2) == p0 + sp + p1);
    assert(line_prefix(cells, widths, 3) == p0 + sp + p1 + sp + p2);
    assert(line_prefix(cells, widths, 4) == p0 + sp + p1 + sp + p2 + sp + p3);
    assert(line_prefix(cells, widths, 5) == p0 + sp + p1 + sp + p2 + sp + p3 + sp + p4);
}

/// In a line, cell `c` fills the `widths[c]` characters that start after the
/// earlier columns and their two-space separators, padded as `{:<w$}`
/// pads, and the separators are two spaces.
pub proof fn law_line_columns(cells: Seq<Seq<char>>, widths: Seq<nat>)
    requires
        cells.len() == 6,
        widths.len() == 6,
        forall|c: int| 0 <= c < 6 ==> #[trigger] cells[c].len() <= widths[c],
    ensures
        ({
            let l = line(cells, widths);
            let w = widths;
            let s1: int = w[0] as int + 2;
            let s2: int = s1 + w[1] + 2;
            let s3: int = s2 + w[2] + 2;
            let s4: int = s3 + w[3] + 2;
            let s5: int = s4 + w[4] + 2;
            &&& l.len() == s5 + w[5]
            &&& l.subrange(0, w[0] as int) == pad_right(cells[0], w[0])
            &&& l.subrange(s1, s1 + w[1]) == pad_right(cells[1], w[1])
            &&& l.subrange(s2, s2 + w[2]) == pad_right(cells[2], w[2])
            &&& l.subrange(s3, s3 + w[3]) == pad_right(cells[3], w[3])
            &&& l.subrange(s4, s4 + w[4]) == pad_right(cells[4], w[4])
            &&& l.subrange(s5, s5 + w[5]) == pad_right(cells[5], w[5])
            &&& l.subrange(w[0] as int, s1) == seq![' ', ' ']
            &&& l.subrange(s1 + w[1], s2) == seq![' ', ' ']
            &&& l.subrange(s2 + w[2], s3) == seq![' ', ' ']
            &&& l.subrange(s3 + w[3], s4) == seq![' ', ' ']
            &&& l.subrange(s4 + w[4], s5) == seq![' ', ' ']
        }),
{
    reveal_strlit("  ");
    let w = widths;
    let sp = seq![' ', ' '];
    assert("  "@ =~= sp);
    let p0 = pad_right(cells[0], w[0]);
    let p1 = pad_right(cells[1], w[1]);
    let p2 = pad_right(cells[2], w[2]);
    let p3 = pad_right(cells[3], w[3]);
    let p4 = pad_right(cells[4], w[4]);
    let p5 = pad_right(cells[5], w[5]);
    assert(cells[0].len() <= w[0]);
    assert(cells[1].len() <= w[1]);
    assert(cells[2].len() <= w[2]);
    assert(cells[3].len() <= w[3]);
    assert(cells[4].len() <= w[4]);
    assert(cells[5].len() <= w[5]);
    lemma_pad_len(cells[0], w[0]);
    lemma_pad_len(cells[1], w[1]);
    lemma_pad_len(cells[2], w[2]);
    lemma_pad_len(cells[3], w[3]);
    lemma_pad_len(cells[4], w[4]);
    lemma_pad_len(cells[5], w[5]);
    let l = line(cells, widths);
    lemma_line_is_concat(cells, widths);
    let s1: int = w[0] as int + 2;
    let s2: int = s1 + w[1] + 2;
    let s3: int = s2 + w[2] + 2;
    let s4: int = s3 + w[3] + 2;
    let s5: int = s4 + w[4] + 2;
    assert(l.subrange(0, w[0] as int) =~= p0);
    assert(l.subrange(s1, s1 + w[1]) =~= p1);
    assert(l.subrange(s2, s2 + w[2]) =~= p2);
    assert(l.subrange(s3, s3 + w[3]) =~= p3);
    assert(l.subrange(s4, s4 + w[4]) =~= p4);
    assert(l.subrange(s5, s5 + w[5]) =~= p5);
    assert(l.subrange(w[0] as int, s1) =~= sp);
    assert(l.subrange(s1 + w[1], s2) =~= sp);
    assert(l.subrange(s2 + w[2], s3) =~= sp);
    assert(l.subrange(s3 + w[3], s4) =~= sp);
    assert(l.subrange(s4 + w[4], s5) =~= sp);
}

/// Every line of the listing, the header included, has the same number of
/// characters: the columns line up.
pub proof fn law_table_lines_line_up(rows: Seq<Seq<Seq<char>>>)
    requires
        forall|i: int| 0 <= i < rows.len() ==> (#[trigger] rows[i]).len() == 6,
    ensures
        forall|i: int|
            0 <= i < table(rows).len() ==> (#[trigger] table(rows)[i]).len() == line_width(
                column_widths(rows),
            ),
        forall|c: int| 0 <= c < 6 ==> #[trigger] header_cells()[c].len() <= column_widths(rows)[c],
        forall|i: int, c: int|
            0 <= i < rows.len() && 0 <= c < 6 ==> (#[trigger] rows[i][c]).len() <= column_widths(
                rows,
            )[c],
{
    let ws = column_widths(rows);
    let n = rows.len() as int;
    assert forall|c: int| 0 <= c < 6 implies #[trigger] ws[c] >= min_widths()[c]
        && forall|i: int| 0 <= i < n ==> ws[c] >= byte_len(#[trigger] rows[i][c]) by {
        lemma_column_width_bounds(rows, c, n);
    }
    reveal_strlit("NAME");
    reveal_strlit("STATUS");
    reveal_strlit("MODE");
    reveal_strlit("NATIVE");
    reveal_strlit("REFRESH");
    reveal_strlit("UUID");
    let h = header_cells();
    assert forall|c: int| 0 <= c < 6 implies #[trigger] h[c].len() <= ws[c] by {
        assert(ws[c] >= min_widths()[c]);
    }
    lemma_line_len(h, ws);
    assert forall|i: int, c: int| 0 <= i < rows.len() && 0 <= c < 6 implies (
    #[trigger] rows[i][c]).len() <= ws[c] by {
        lemma_chars_at_most_bytes(rows[i][c]);
    }
    assert forall|i: int| 0 <= i < table(rows).len() implies (#[trigger] table(rows)[i]).len()
        == line_width(ws) by {
        if i > 0 {
            let r = rows[i - 1];
            assert forall|c: int| 0 <= c < 6 implies #[trigger] r[c].len() <= ws[c] by {
                lemma_chars_at_most_bytes(r[c]);
                assert(ws[c] >= byte_len(rows[i - 1][c]));
            }
            lemma_line_len(r, ws);
        }
    }
}


/// The listing has the header and then exactly one line per display, in the
/// order given, each beginning with the display's name; there is no listing
/// without displays.
pub proof fn law_table_lists_every_display(rows: Seq<Seq<Seq<char>>>)
    requires
        forall|i: int| 0 <= i < rows.len() ==> (#[trigger] rows[i]).len() == 6,
    ensures
        rows.len() == 0 ==> table(rows).len() == 0,
        rows.len() > 0 ==> table(rows).len() == rows.len() + 1,
        forall|i: int|
            0 <= i < rows.len() ==> #[trigger] table(rows)[i + 1] == line(
                rows[i],
                column_widths(rows),
            ),
        forall|i: int|
            0 <= i < rows.len() ==> (#[trigger] table(rows)[i + 1]).take(rows[i][0].len() as int)
                == rows[i][0],
{
    let ws = column_widths(rows);
    assert forall|i: int| 0 <= i < rows.len() implies (#[trigger] table(rows)[i + 1]).take(
        rows[i][0].len() as int,
    ) == rows[i][0] by {
        let r = rows[i];
        assert(table(rows)[i + 1] == line(r, ws));
        law_pad_right(r[0], ws[0]);
        lemma_line_starts_with_first_cell(r, ws, 6);
        let l = line(r, ws);
        let pad = pad_right(r[0], ws[0]);
        assert(l.take(r[0].len() as int) =~= l.take(pad.len() as int).take(r[0].len() as int));
    }
}

proof fn lemma_line_starts_with_first_cell(cells: Seq<Seq<char>>, widths: Seq<nat>, n: int)
    requires
        1 <= n,
    ensures
        line_prefix(cells, widths, n).len() >= pad_right(cells[0], widths[0]).len(),
        line_prefix(cells, widths, n).take(pad_right(cells[0], widths[0]).len() as int)
            == pad_right(cells[0], widths[0]),
    decreases n,
{
    if n > 1 {
        lemma_line_starts_with_first_cell(cells, widths, n - 1);
        let p = line_prefix(cells, widths, n - 1);
        let k = pad_right(cells[0], widths[0]).len() as int;
        assert(line_prefix(cells, widths, n).take(k) =~= p.take(k));
    } else {
        assert(line_prefix(cells, widths, 1).take(pad_right(cells[0], widths[0]).len() as int)
            =~= pad_right(cells[0], widths[0]));
    }
}

/// Whether every cell's byte length fits in a `usize`, as it does for every
/// string in memory.
pub open spec fn cells_fit(rows: Seq<Seq<Seq<char>>>) -> bool {
    forall|i: int, col: int|
        0 <= i < rows.len() && 0 <= col < 6 ==> byte_len(#[trigger] rows[i][col]) <= usize::MAX
}

fn cell(row: &DisplayRow, col: usize) -> (s: &str)
    requires
        col < 6,
    ensures
        s@ == row@[col as int],
{
    if col == 0 {
        row.name.as_str()
    } else if col == 1 {
        row.status.as_str()
    } else if col == 2 {
        row.mode.as_str()
    } else if col == 3 {
        row.native.as_str()
    } else if col == 4 {
        row.refresh.as_str()
    } else {
        row.uuid.as_str()
    }
}

fn header_cell(col: usize) -> (s: &'static str)
    requires
        col < 6,
    ensures
        s@ == header_cells()[col as int],
{
    if col == 0 {
        "NAME"
    } else if col == 1 {
        "STATUS"
    } else if col == 2 {
        "MODE"
    } else if col == 3 {
        "NATIVE"
    } else if col == 4 {
        "REFRESH"
    } else {
        "UUID"
    }
}

fn min_width(col: usize) -> (w: usize)
    requires
        col < 6,
    ensures
        w == min_widths()[col as int],
{
    if col == 0 {
        4
    } else if col == 1 {
        6
    } else if col == 2 {
        4
    } else if col == 3 {
        6
    } else if col == 4 {
        7
    } else {
        4
    }
}

/// The row views of `rows`.
pub open spec fn rows_view(rows: Seq<DisplayRow>) -> Seq<Seq<Seq<char>>> {
    rows.map_values(|r: DisplayRow| r@)
}

fn column_width_of(rows: &Vec<DisplayRow>, col: usize) -> (w: usize)
    requires
        col < 6,
        cells_fit(rows_view(rows@)),
    ensures
        w == column_width(rows_view(rows@), col as int, rows@.len() as int),
{
    let ghost view = rows_view(rows@);
    let mut w: usize = min_width(col);
    let mut i: usize = 0;
    while i < rows.len()
        invariant
            col < 6,
            i <= rows@.len(),
            view == rows_view(rows@),
            cells_fit(view),
            w == column_width(view, col as int, i as int),
        decreases rows@.len() - i,
    {
        let s = cell(&rows[i], col);
        assert(view[i as int] == rows@[i as int]@);
        assert(byte_len(view[i as int][col as int]) <= usize::MAX);
        let b: usize = s.len();
        if b > w {
            w = b;
        }
        i = i + 1;
    }
    w
}

fn push_line(out: &mut String, row: Option<&DisplayRow>, widths: &Vec<usize>)
    requires
        widths@.len() == 6,
    ensures
        final(out)@ == old(out)@ + line(
            match row {
                Some(r) => r@,
                None => header_cells(),
            },
            widths@.map_values(|w: usize| w as nat),
        ),
{
    let ghost cells = match row {
        Some(r) => r@,
        None => header_cells(),
    };
    let ghost ws = widths@.map_values(|w: usize| w as nat);
    let ghost start = out@;
    let mut col: usize = 0;
    while col < 6
        invariant
            widths@.len() == 6,
            ws == widths@.map_values(|w: usize| w as nat),
            cells == match row {
                Some(r) => r@,
                None => header_cells(),
            },
            col <= 6,
            out@ == start + line_prefix(cells, ws, col as int),
        decreases 6 - col,
    {
        let text: &str = match row {
            Some(r) => cell(r, col),
            None => header_cell(col),
        };
        if col > 0 {
            out.append("  ");
        }
        push_padded(out, text, widths[col]);
        proof {
            if col == 0 {
                assert(out@ =~= start + line_prefix(cells, ws, 1));
            } else {
                assert(out@ =~= start + line_prefix(cells, ws, col + 1));
            }
        }
        col = col + 1;
    }
}

/// The lines that `displayctl list` prints for `rows`: none where there are
/// no displays, else a header and one line per display, each cell
/// left-aligned in a column as wide as its widest cell in bytes (and at
/// least as wide as its header), columns separated by two spaces.
pub fn display_table(rows: &Vec<DisplayRow>) -> (lines: Vec<String>)
    requires
        cells_fit(rows_view(rows@)),
    ensures
        lines@.map_values(|l: String| l@) == table(rows_view(rows@)),
        rows@.len() == 0 ==> lines@.len() == 0,
        rows@.len() > 0 ==> lines@.len() == rows@.len() + 1,
        rows@.len() > 0 ==> lines@[0]@ == line(header_cells(), column_widths(rows_view(rows@))),
        forall|i: int|
            0 <= i < rows@.len() ==> #[trigger] lines@[i + 1]@ == line(
                rows@[i]@,
                column_widths(rows_view(rows@)),
            ),
{
    let ghost view = rows_view(rows@);
    let mut lines: Vec<String> = Vec::new();
    if rows.len() == 0 {
        assert(lines@.map_values(|l: String| l@) =~= table(view));
        return lines;
    }
    let mut widths: Vec<usize> = Vec::new();
    let mut col: usize = 0;
    while col < 6
        invariant
            col <= 6,
            view == rows_view(rows@),
            cells_fit(view),
            widths@.len() == col,
            forall|c: int| 0 <= c < col ==> widths@[c] == column_width(view, c, view.len() as int),
        decreases 6 - col,
    {
        let w = column_width_of(rows, col);
        widths.push(w);
        col = col + 1;
    }
    let ghost ws = widths@.map_values(|w: usize| w as nat);
    assert(ws =~= column_widths(view));
    let mut header = String::new();
    push_line(&mut header, None, &widths);
    lines.push(header);
    let mut i: usize = 0;
    while i < rows.len()
        invariant
            i <= rows@.len(),
            view == rows_view(rows@),
            rows@.len() > 0,
            widths@.len() == 6,
            ws == widths@.map_values(|w: usize| w as nat),
            ws == column_widths(view),
            lines@.len() == i + 1,
            lines@[0]@ == line(header_cells(), ws),
            forall|j: int| 0 <= j < i ==> #[trigger] lines@[j + 1]@ == line(view[j], ws),
        decreases rows@.len() - i,
    {
        let mut text = String::new();
        push_line(&mut text, Some(&rows[i]), &widths);
        assert(view[i as int] == rows@[i as int]@);
        lines.push(text);
        i = i + 1;
    }
    assert forall|j: int| 0 <= j < rows@.len() implies #[trigger] lines@[j + 1]@ == line(
        rows@[j]@,
        column_widths(rows_view(rows@)),
    ) by {
        assert(view[j] == rows@[j]@);
    }
    assert(lines@.map_values(|l: String| l@) =~= table(view)) by {
        assert forall|j: int| 0 <= j < lines@.len() implies lines@.map_values(|l: String| l@)[j]
            == table(view)[j] by {
            if j > 0 {
                assert(lines@[(j - 1) + 1]@ == line(view[j - 1], ws));
            }
        }
    }
    lines
}

} // verus!
