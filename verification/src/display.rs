//! Text of the listing: icons, names, columns and long lines.
use vstd::prelude::*;
use crate::entry::Entry;
use crate::text::{escape_free, is_final_char, is_parameter_text, law_colour_codes_invisible, lemma_strip_escape_free_prefix, same_text, escape_quotes, escape_double_quote, strip_ansi, strip_ansi_text, spaces, push_spaces, push_char, decimal, decimal_text, align_left, align_right, align_left_text, align_right_text};
use humansize::{format_size, DECIMAL};
use unicode_width::UnicodeWidthStr;

verus! {

/// The number of terminal columns that `s` takes, as `unicode-width` measures it.
pub uninterp spec fn display_width(s: Seq<char>) -> usize;

/// A byte count in decimal units, as `humansize` writes it (`"1.50 kB"`).
pub uninterp spec fn decimal_size_text(bytes: u64) -> Seq<char>;

/// `UnicodeWidthStr::width` of `unicode-width`: the displayed width of `s`.
/// Trusted to return the named width of the characters of `s`.
#[verifier::external_body]
fn text_width(s: &str) -> (r: usize)
    ensures
        r == display_width(s@),
{
    UnicodeWidthStr::width(s)
}

/// `humansize::format_size` with the `DECIMAL` options. Trusted to return the
/// named text of `bytes`.
#[verifier::external_body]
fn size_text(bytes: u64) -> (r: String)
    ensures
        r@ == decimal_size_text(bytes),
{
    format_size(bytes, DECIMAL)
}

/// The icon shown before a name.
pub open spec fn icon_of(is_dir: bool, ext: Seq<char>) -> Seq<char> {
    if is_dir {
        "\u{f115}"@
    } else if ext == "rs"@ {
        "\u{e7a8}"@
    } else if ext == "md"@ {
        "\u{f48a}"@
    } else if ext == "toml"@ {
        "\u{f013}"@
    } else if ext == "json"@ || ext == "yaml"@ || ext == "yml"@ {
        "\u{f1c0}"@
    } else if ext == "png"@ || ext == "jpg"@ || ext == "jpeg"@ || ext == "gif"@ {
        "\u{f1c5}"@
    } else if ext == "txt"@ {
        "\u{f15c}"@
    } else {
        "\u{f15b}"@
    }
}

/// The icon for an entry: a folder for directories, otherwise by extension.
pub fn get_icon(_name: &str, is_dir: bool, ext: &str) -> (r: &'static str)
    ensures
        r@ == icon_of(is_dir, ext@),
{
    if is_dir {
        return "\u{f115}";
    }
    if same_text(ext, "rs") {
        "\u{e7a8}"
    } else if same_text(ext, "md") {
        "\u{f48a}"
    } else if same_text(ext, "toml") {
        "\u{f013}"
    } else if same_text(ext, "json") || same_text(ext, "yaml") || same_text(ext, "yml") {
        "\u{f1c0}"
    } else if same_text(ext, "png") || same_text(ext, "jpg") || same_text(ext, "jpeg")
        || same_text(ext, "gif") {
        "\u{f1c5}"
    } else if same_text(ext, "txt") {
        "\u{f15c}"
    } else {
        "\u{f15b}"
    }
}


/// The widest column that names of the displayed widths `widths` need, each
/// with three more columns for an icon and its blank where icons are shown;
/// 0 where there are no names.
pub open spec fn widest(widths: Seq<usize>, show_icon: bool) -> int
    decreases widths.len(),
{
    if widths.len() == 0 {
        0
    } else {
        let w = widest(widths.drop_last(), show_icon);
        let c = widths.last() + (if show_icon { 3int } else { 0int });
        if c > w { c } else { w }
    }
}

/// Law: the widest column is the largest of the widths, each with three
/// columns more where icons are shown: no width needs more, and one needs
/// exactly that much; with no widths it is 0.
pub proof fn law_widest_is_largest(widths: Seq<usize>, show_icon: bool)
    ensures
        forall|i: int| 0 <= i < widths.len() ==> #[trigger] widths[i] + (if show_icon { 3int } else { 0int })
            <= widest(widths, show_icon),
        widths.len() == 0 ==> widest(widths, show_icon) == 0,
        widths.len() > 0 ==> exists|i: int| 0 <= i < widths.len() && #[trigger] widths[i] + (if show_icon {
            3int
        } else {
            0int
        }) == widest(widths, show_icon),
    decreases widths.len(),
{
    if widths.len() > 0 {
        let init = widths.drop_last();
        law_widest_is_largest(init, show_icon);
        assert forall|i: int| 0 <= i < widths.len() implies #[trigger] widths[i] + (if show_icon { 3int } else { 0int })
            <= widest(widths, show_icon) by {
            if i < init.len() {
                assert(widths[i] == init[i]);
            }
        }
        let last = widths.len() - 1;
        if widths.last() + (if show_icon { 3int } else { 0int }) > widest(init, show_icon) {
            assert(widths[last] + (if show_icon { 3int } else { 0int }) == widest(widths, show_icon));
        } else {
            if init.len() == 0 {
                assert(widths[last] + (if show_icon { 3int } else { 0int }) == widest(widths, show_icon));
            } else {
                let j = choose|j: int| 0 <= j < init.len() && #[trigger] init[j] + (if show_icon {
                    3int
                } else {
                    0int
                }) == widest(init, show_icon);
                assert(widths[j] == init[j]);
                assert(widths[j] + (if show_icon { 3int } else { 0int }) == widest(widths, show_icon));
            }
        }
    }
}

/// The displayed widths of the entries' names.
pub open spec fn name_widths(entries: Seq<Entry>) -> Seq<usize> {
    entries.map_values(|e: Entry| display_width(e.name@))
}

/// Every width leaves room for an icon and two blanks in a `usize`.
pub open spec fn widths_fit(widths: Seq<usize>) -> bool {
    forall|i: int| 0 <= i < widths.len() ==> #[trigger] widths[i] <= usize::MAX - 5
}

/// The column width for names of the displayed widths `widths`: the widest
/// and two blanks.
pub fn max_width_from_widths(widths: &[usize], show_icon: bool) -> (r: usize)
    requires
        widths_fit(widths@),
    ensures
        r == widest(widths@, show_icon) + 2,
{
    let mut best: usize = 0;
    let mut i: usize = 0;
    while i < widths.len()
        invariant
            i <= widths.len(),
            widths_fit(widths@),
            best == widest(widths@.take(i as int), show_icon),
            best <= usize::MAX - 2,
        decreases widths.len() - i,
    {
        assert(widths@[i as int] <= usize::MAX - 5);
        let icon_width: usize = if show_icon { 3 } else { 0 };
        let w = widths[i] + icon_width;
        assert(widths@.take(i + 1).drop_last() =~= widths@.take(i as int));
        if w > best {
            best = w;
        }
        i = i + 1;
    }
    assert(widths@.take(i as int) =~= widths@);
    best + 2
}

/// The displayed widths of the entries' names.
fn widths_of_names(entries: &[Entry]) -> (r: Vec<usize>)
    ensures
        r@ == name_widths(entries@),
{
    let mut r: Vec<usize> = Vec::new();
    let mut i: usize = 0;
    while i < entries.len()
        invariant
            i <= entries.len(),
            r@ == name_widths(entries@).take(i as int),
        decreases entries.len() - i,
    {
        r.push(text_width(entries[i].name.as_str()));
        i = i + 1;
        assert(r@ =~= name_widths(entries@).take(i as int));
    }
    assert(r@ =~= name_widths(entries@));
    r
}

/// The column width for the plain listing: the widest name, with three more
/// columns for an icon where icons are shown, and two blanks.
pub fn get_max_width(entries: &[Entry], show_icon: bool) -> (r: usize)
    requires
        widths_fit(name_widths(entries@)),
    ensures
        r == widest(name_widths(entries@), show_icon) + 2,
{
    let widths = widths_of_names(entries);
    max_width_from_widths(widths.as_slice(), show_icon)
}

/// The column width for the plain listing, or `None` where a name is too wide
/// for the width to be counted in a `usize`.
pub fn max_width_checked(entries: &[Entry], show_icon: bool) -> (r: Option<usize>)
    ensures
        r == (if widths_fit(name_widths(entries@)) {
            Some((widest(name_widths(entries@), show_icon) + 2) as usize)
        } else {
            None::<usize>
        }),
{
    let widths = widths_of_names(entries);
    let mut i: usize = 0;
    while i < widths.len()
        invariant
            i <= widths.len(),
            widths@ == name_widths(entries@),
            forall|j: int| 0 <= j < i ==> #[trigger] widths@[j] <= usize::MAX - 5,
        decreases widths.len() - i,
    {
        if widths[i] > usize::MAX - 5 {
            assert(widths@[i as int] > usize::MAX - 5);
            return None;
        }
        i = i + 1;
    }
    Some(get_max_width(entries, show_icon))
}

/// The width that a terminal gives `s`, leaving out ANSI control sequences.
pub fn visible_width(s: &str) -> (r: usize)
    ensures
        r == display_width(strip_ansi(s@)),
{
    let plain = strip_ansi_text(s);
    text_width(plain.as_str())
}

/// `s` between double quotes, with its double quotes escaped.
pub open spec fn quoted(s: Seq<char>) -> Seq<char> {
    seq!['"'] + escape_quotes(s) + seq!['"']
}

/// One cell of the column layout: the name, quoted where asked, padded from
/// its visible width `width` to `max_width` columns.
pub open spec fn column_cell(name: Seq<char>, width: usize, max_width: usize, quote: bool) -> Seq<char> {
    let pad: nat = if max_width > width { (max_width - width) as nat } else { 0 };
    (if quote { quoted(name) } else { name }) + spaces(pad)
}

/// The visible widths of the names.
pub open spec fn visible_widths(names: Seq<String>) -> Seq<usize> {
    names.map_values(|n: String| display_width(strip_ansi(n@)))
}

/// Law: a name coloured with an ANSI control sequence before it and the reset
/// sequence `ESC [ 0 m` after it is measured as the plain name, so both get
/// the same padding in a column of `max_width`; a name without escape
/// characters is measured by its own text.
pub proof fn law_coloured_name_padding(
    names: Seq<String>,
    i: int,
    j: int,
    params: Seq<char>,
    fin: char,
    max_width: usize,
)
    requires
        0 <= i < names.len(),
        0 <= j < names.len(),
        is_parameter_text(params),
        is_final_char(fin),
        escape_free(names[j]@),
        names[i]@ == seq!['\u{1b}', '['] + params + seq![fin] + names[j]@ + seq!['\u{1b}', '[', '0', 'm'],
    ensures
        visible_widths(names)[j] == display_width(names[j]@),
        visible_widths(names)[i] == visible_widths(names)[j],
        column_cell(names[i]@, visible_widths(names)[i], max_width, false).skip(names[i]@.len() as int)
            == column_cell(names[j]@, visible_widths(names)[j], max_width, false).skip(names[j]@.len() as int),
{
    let plain = names[j]@;
    law_colour_codes_invisible(params, fin, plain);
    lemma_strip_escape_free_prefix(plain, Seq::<char>::empty());
    assert(strip_ansi(Seq::<char>::empty()) == Seq::<char>::empty());
    assert(plain + Seq::<char>::empty() =~= plain);
    let w = visible_widths(names)[j];
    let pad: nat = if max_width > w { (max_width - w) as nat } else { 0 };
    assert(column_cell(names[i]@, w, max_width, false).skip(names[i]@.len() as int) =~= spaces(pad));
    assert(column_cell(plain, w, max_width, false).skip(plain.len() as int) =~= spaces(pad));
}

/// The number of columns that fit: at least one.
pub open spec fn column_count(max_width: usize, term_width: usize) -> int {
    if term_width / max_width >= 1 { (term_width / max_width) as int } else { 1 }
}

/// The number of rows for `n` names in `cols` columns: `n / cols`, rounded up.
pub open spec fn row_count(n: int, cols: int) -> int {
    if n == 0 { 0 } else { (n - 1) / cols + 1 }
}

/// Law: as many columns of `max_width` as fit in the terminal are used (one
/// at least), and the rows are as few as hold every name: `rows` rows of
/// `cols` columns hold all `n` names, while one row fewer would not.
pub proof fn law_layout_holds_every_name(n: int, max_width: usize, term_width: usize)
    requires
        n >= 0,
        max_width > 0,
    ensures
        column_count(max_width, term_width) >= 1,
        term_width >= max_width ==> column_count(max_width, term_width) * max_width <= term_width,
        (column_count(max_width, term_width) + 1) * max_width > term_width,
        row_count(n, column_count(max_width, term_width)) * column_count(max_width, term_width) >= n,
        n > 0 ==> (row_count(n, column_count(max_width, term_width)) - 1) * column_count(max_width, term_width) < n,
{
    let m = max_width as int;
    let t = term_width as int;
    let q = t / m;
    assert(q * m <= t && (q + 1) * m > t) by (nonlinear_arith)
        requires
            m > 0,
            t >= 0,
            q == t / m,
    ;
    let c = column_count(max_width, term_width);
    assert(c >= 1);
    if q < 1 {
        assert(q == 0) by (nonlinear_arith)
            requires
                m > 0,
                t >= 0,
                q == t / m,
                q < 1,
        ;
        assert(m > t) by (nonlinear_arith)
            requires
                q == 0,
                (q + 1) * m > t,
        ;
        assert(c == 1);
        assert((c + 1) * m == 2 * m);
    }
    if n > 0 {
        let k = (n - 1) / c;
        assert((k + 1) * c >= n && k * c < n) by (nonlinear_arith)
            requires
                c >= 1,
                n >= 1,
                k == (n - 1) / c,
        ;
    }
}

/// Row `r` of the layout, made of its cells in the first `c` columns. Names
/// run down the columns: the cell in column `k` holds name `k * rows + r`.
pub open spec fn row_text(
    names: Seq<String>,
    widths: Seq<usize>,
    rows: int,
    r: int,
    c: int,
    max_width: usize,
    quote: bool,
) -> Seq<char>
    decreases c,
{
    if c <= 0 {
        Seq::empty()
    } else {
        let prev = row_text(names, widths, rows, r, c - 1, max_width, quote);
        let i = (c - 1) * rows + r;
        if 0 <= i < names.len() {
            prev + column_cell(names[i]@, widths[i], max_width, quote)
        } else {
            prev
        }
    }
}

proof fn lemma_row_text_stops(
    names: Seq<String>,
    widths: Seq<usize>,
    rows: int,
    r: int,
    c: int,
    d: int,
    max_width: usize,
    quote: bool,
)
    requires
        0 <= r,
        0 <= rows,
        0 <= c <= d,
        c * rows + r >= names.len(),
    ensures
        row_text(names, widths, rows, r, d, max_width, quote) == row_text(names, widths, rows, r, c, max_width, quote),
    decreases d - c,
{
    if d > c {
        lemma_row_text_stops(names, widths, rows, r, c, d - 1, max_width, quote);
        assert((d - 1) * rows >= c * rows) by (nonlinear_arith)
            requires
                d - 1 >= c,
                rows >= 0,
        ;
    }
}

/// One cell of the layout for a name of visible width `width`.
pub fn cell_text(name: &str, width: usize, max_width: usize, quote: bool) -> (r: String)
    ensures
        r@ == column_cell(name@, width, max_width, quote),
{
    let pad: usize = if max_width > width { max_width - width } else { 0 };
    let mut r = String::new();
    if quote {
        push_char(&mut r, '"');
        let e = escape_double_quote(name);
        r.append(e.as_str());
        push_char(&mut r, '"');
    } else {
        r.append(name);
    }
    push_spaces(&mut r, pad);
    assert(r@ =~= column_cell(name@, width, max_width, quote));
    r
}

/// Lays the names, of visible widths `widths`, out in rows of columns,
/// `max_width` columns apart, as many columns as fit in `term_width`, names
/// running down each column.
pub fn layout_columns_with_widths(
    names: &[String],
    widths: &[usize],
    max_width: usize,
    term_width: usize,
    quote: bool,
) -> (lines: Vec<String>)
    requires
        max_width > 0,
        widths.len() == names.len(),
    ensures
        lines.len() == row_count(names.len() as int, column_count(max_width, term_width)),
        forall|r: int| 0 <= r < lines.len() ==> #[trigger] lines@[r]@ == row_text(
            names@,
            widths@,
            lines.len() as int,
            r,
            column_count(max_width, term_width),
            max_width,
            quote,
        ),
{
    let q = term_width / max_width;
    let cols: usize = if q >= 1 { q } else { 1 };
    let n = names.len();
    let rows: usize = if n == 0 { 0 } else { (n - 1) / cols + 1 };
    proof {
        if n > 0 {
            assert(rows <= n) by (nonlinear_arith)
                requires
                    cols >= 1,
                    n >= 1,
                    rows == (n - 1) / (cols as int) + 1,
            ;
        }
    }
    let mut lines: Vec<String> = Vec::new();
    let mut r: usize = 0;
    while r < rows
        invariant
            r <= rows,
            rows <= n,
            n == names.len(),
            n == widths.len(),
            cols as int == column_count(max_width, term_width),
            rows as int == row_count(n as int, cols as int),
            lines.len() == r,
            forall|k: int| 0 <= k < r ==> #[trigger] lines@[k]@ == row_text(
                names@,
                widths@,
                rows as int,
                k,
                cols as int,
                max_width,
                quote,
            ),
        decreases rows - r,
    {
        let mut line = String::new();
        let mut c: usize = 0;
        let mut i: usize = r;
        let mut more = true;
        while c < cols && more
            invariant
                c <= cols,
                r < rows <= n,
                n == names.len(),
                n == widths.len(),
                more ==> i == c * rows + r && i < n,
                !more ==> c * rows + r >= n,
                line@ == row_text(names@, widths@, rows as int, r as int, c as int, max_width, quote),
            decreases cols - c,
        {
            let cell = cell_text(names[i].as_str(), widths[i], max_width, quote);
            line.append(cell.as_str());
            proof {
                assert((c + 1) * rows == c * rows + rows) by (nonlinear_arith);
            }
            c = c + 1;
            if rows < n - i {
                i = i + rows;
            } else {
                more = false;
            }
        }
        proof {
            if c < cols {
                lemma_row_text_stops(names@, widths@, rows as int, r as int, c as int, cols as int, max_width, quote);
            }
        }
        lines.push(line);
        r = r + 1;
    }
    lines
}

/// Lays the names out in rows of columns, `max_width` columns apart, as many
/// columns as fit in `term_width`, names running down each column; each name
/// is padded by its width without ANSI control sequences.
pub fn layout_columns(names: &[String], max_width: usize, term_width: usize, quote: bool) -> (lines: Vec<String>)
    requires
        max_width > 0,
    ensures
        lines.len() == row_count(names.len() as int, column_count(max_width, term_width)),
        forall|r: int| 0 <= r < lines.len() ==> #[trigger] lines@[r]@ == row_text(
            names@,
            visible_widths(names@),
            lines.len() as int,
            r,
            column_count(max_width, term_width),
            max_width,
            quote,
        ),
{
    let mut widths: Vec<usize> = Vec::new();
    let mut i: usize = 0;
    while i < names.len()
        invariant
            i <= names.len(),
            widths@ == visible_widths(names@).take(i as int),
        decreases names.len() - i,
    {
        let w = visible_width(names[i].as_str());
        widths.push(w);
        i = i + 1;
        assert(widths@ =~= visible_widths(names@).take(i as int));
    }
    assert(widths@ =~= visible_widths(names@));
    layout_columns_with_widths(names, widths.as_slice(), max_width, term_width, quote)
}


/// The name as shown in the listing: after its icon and a blank where icons
/// are shown.
pub open spec fn shown_name(e: Entry, show_icon: bool) -> Seq<char> {
    if show_icon {
        icon_of(e.is_dir, e.extension@) + seq![' '] + e.name@
    } else {
        e.name@
    }
}

/// The name of an entry as shown, before any colouring.
pub fn plain_name(e: &Entry, show_icon: bool) -> (r: String)
    ensures
        r@ == shown_name(*e, show_icon),
{
    let mut r = String::new();
    if show_icon {
        let icon = get_icon(e.name.as_str(), e.is_dir, e.extension.as_str());
        r.append(icon);
        push_char(&mut r, ' ');
    }
    r.append(e.name.as_str());
    assert(r@ =~= shown_name(*e, show_icon));
    r
}

/// A name on its own line, between quotes where asked.
pub open spec fn one_column_line(e: Entry, quote: bool) -> Seq<char> {
    if quote { quoted(e.name@) } else { e.name@ }
}

/// The lines of the one-column listing, one name each.
pub fn one_column_lines(entries: &[Entry], quote: bool) -> (lines: Vec<String>)
    ensures
        lines.len() == entries.len(),
        forall|i: int| 0 <= i < entries.len() ==> #[trigger] lines@[i]@ == one_column_line(entries@[i], quote),
{
    let mut lines: Vec<String> = Vec::new();
    let mut i: usize = 0;
    while i < entries.len()
        invariant
            i <= entries.len(),
            lines.len() == i,
            forall|k: int| 0 <= k < i ==> #[trigger] lines@[k]@ == one_column_line(entries@[k], quote),
        decreases entries.len() - i,
    {
        let name = entries[i].name.as_str();
        let mut line = String::new();
        if quote {
            push_char(&mut line, '"');
            let e = escape_double_quote(name);
            line.append(e.as_str());
            push_char(&mut line, '"');
        } else {
            line.append(name);
        }
        assert(line@ =~= one_column_line(entries@[i as int], quote));
        lines.push(line);
        i = i + 1;
    }
    lines
}

/// One line of the long listing: mode, links (right-aligned in 3), owner and
/// group (left-aligned in 8), the size text (right-aligned in 8),
/// modification time, Git status and the name, separated by blanks.
pub open spec fn long_line_text(e: Entry, size: Seq<char>, name: Seq<char>, quote: bool) -> Seq<char> {
    e.mode@ + seq![' '] + align_right(decimal(e.nlink as nat), 3) + seq![' '] + align_left(
        e.owner@,
        8,
    ) + seq![' '] + align_left(e.group@, 8) + seq![' '] + align_right(size, 8)
        + seq![' '] + e.modified@ + seq![' '] + e.git_status@ + seq![' '] + (if quote {
        quoted(name)
    } else {
        name
    })
}

/// The long-listing line of an entry whose size is written `size` and whose
/// name is shown as `name`.
pub fn long_line_with_size(e: &Entry, size: &str, name: &str, quote: bool) -> (r: String)
    ensures
        r@ == long_line_text(*e, size@, name@, quote),
{
    let links = decimal_text(e.nlink);
    let mut r = String::new();
    r.append(e.mode.as_str());
    push_char(&mut r, ' ');
    let f = align_right_text(links.as_str(), 3);
    r.append(f.as_str());
    push_char(&mut r, ' ');
    let f = align_left_text(e.owner.as_str(), 8);
    r.append(f.as_str());
    push_char(&mut r, ' ');
    let f = align_left_text(e.group.as_str(), 8);
    r.append(f.as_str());
    push_char(&mut r, ' ');
    let f = align_right_text(size, 8);
    r.append(f.as_str());
    push_char(&mut r, ' ');
    r.append(e.modified.as_str());
    push_char(&mut r, ' ');
    r.append(e.git_status.as_str());
    push_char(&mut r, ' ');
    if quote {
        push_char(&mut r, '"');
        let q = escape_double_quote(name);
        r.append(q.as_str());
        push_char(&mut r, '"');
    } else {
        r.append(name);
    }
    assert(r@ =~= long_line_text(*e, size@, name@, quote));
    r
}

/// The long-listing line of an entry whose name is shown as `name`, its size
/// written in decimal units.
pub fn long_line(e: &Entry, name: &str, quote: bool) -> (r: String)
    ensures
        r@ == long_line_text(*e, decimal_size_text(e.size), name@, quote),
{
    let size = size_text(e.size);
    long_line_with_size(e, size.as_str(), name, quote)
}

} // verus!
