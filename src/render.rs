//! Fixed-width text: left-justified cells separated by one space, integers in
//! decimal, costs in tenths with one decimal place.
use vstd::prelude::*;
use vstd::string::*;

verus! {

/// `n` spaces.
pub open spec fn spaces(n: nat) -> Seq<char> {
    Seq::new(n, |i: int| ' ')
}

/// `s` padded on the right with spaces to at least `w` characters.
pub open spec fn pad_right(s: Seq<char>, w: nat) -> Seq<char> {
    if s.len() >= w {
        s
    } else {
        s + spaces((w - s.len()) as nat)
    }
}

/// The character of a decimal digit.
pub open spec fn digit_char(d: nat) -> char {
    if d == 0 {
        '0'
    } else if d == 1 {
        '1'
    } else if d == 2 {
        '2'
    } else if d == 3 {
        '3'
    } else if d == 4 {
        '4'
    } else if d == 5 {
        '5'
    } else if d == 6 {
        '6'
    } else if d == 7 {
        '7'
    } else if d == 8 {
        '8'
    } else {
        '9'
    }
}

/// The decimal digits of `n`, without leading zeros.
pub open spec fn digits_text(n: nat) -> Seq<char>
    decreases n,
{
    if n < 10 {
        seq![digit_char(n)]
    } else {
        digits_text(n / 10).push(digit_char(n % 10))
    }
}

/// An integer in decimal, with a leading '-' when negative.
pub open spec fn int_text(v: int) -> Seq<char> {
    if v < 0 {
        seq!['-'] + digits_text((-v) as nat)
    } else {
        digits_text(v as nat)
    }
}

/// A cost given in tenths, as units with exactly one decimal place.
pub open spec fn cost_text(c: nat) -> Seq<char> {
    digits_text(c / 10) + seq!['.', digit_char(c % 10)]
}

/// The cells padded to their column widths and joined by single spaces.
pub open spec fn table_line(cells: Seq<Seq<char>>, widths: Seq<nat>) -> Seq<char>
    decreases cells.len(),
{
    if cells.len() == 0 {
        Seq::empty()
    } else if cells.len() == 1 {
        pad_right(cells[0], widths[0])
    } else {
        table_line(cells.drop_last(), widths) + seq![' '] + pad_right(
            cells.last(),
            widths[cells.len() - 1],
        )
    }
}

/// The texts of a row of cells.
pub open spec fn cell_texts(cells: Seq<String>) -> Seq<Seq<char>> {
    cells.map_values(|c: String| c@)
}

/// Column widths as natural numbers.
pub open spec fn width_values(widths: Seq<usize>) -> Seq<nat> {
    widths.map_values(|w: usize| w as nat)
}

/// The text of one digit.
fn digit_str(d: u128) -> (r: &'static str)
    requires
        d < 10,
    ensures
        r@ == seq![digit_char(d as nat)],
{
    proof {
        reveal_strlit("0");
        reveal_strlit("1");
        reveal_strlit("2");
        reveal_strlit("3");
        reveal_strlit("4");
        reveal_strlit("5");
        reveal_strlit("6");
        reveal_strlit("7");
        reveal_strlit("8");
        reveal_strlit("9");
    }
    if d == 0 {
        "0"
    } else if d == 1 {
        "1"
    } else if d == 2 {
        "2"
    } else if d == 3 {
        "3"
    } else if d == 4 {
        "4"
    } else if d == 5 {
        "5"
    } else if d == 6 {
        "6"
    } else if d == 7 {
        "7"
    } else if d == 8 {
        "8"
    } else {
        "9"
    }
}

/// Appends the decimal digits of `n`.
fn push_digits(out: &mut String, n: u128)
    ensures
        final(out)@ == old(out)@ + digits_text(n as nat),
    decreases n,
{
    if n >= 10 {
        push_digits(out, n / 10);
        out.append(digit_str(n % 10));
        assert(digits_text(n as nat) == digits_text((n / 10) as nat).push(digit_char((n % 10) as nat)));
        assert(old(out)@ + digits_text((n / 10) as nat) + seq![digit_char((n % 10) as nat)]
            =~= old(out)@ + digits_text(n as nat));
    } else {
        out.append(digit_str(n));
    }
}

/// An integer in decimal.
pub fn int_to_text(v: i128) -> (r: String)
    ensures
        r@ == int_text(v as int),
{
    let mut out = String::new();
    if v < 0 {
        proof {
            reveal_strlit("-");
        }
        out.append("-");
        let m = (-(v + 1)) as u128 + 1;
        push_digits(&mut out, m);
        assert(out@ =~= int_text(v as int));
    } else {
        push_digits(&mut out, v as u128);
        assert(out@ =~= int_text(v as int));
    }
    out
}

/// A cost given in tenths, as units with one decimal place: 125 gives "12.5".
pub fn format_cost(cost: u64) -> (r: String)
    ensures
        r@ == cost_text(cost as nat),
{
    let mut out = String::new();
    push_digits(&mut out, (cost / 10) as u128);
    proof {
        reveal_strlit(".");
    }
    out.append(".");
    out.append(digit_str((cost % 10) as u128));
    assert(out@ =~= cost_text(cost as nat));
    out
}

/// Appends `s` padded with spaces to `w` characters.
fn push_padded(out: &mut String, s: &str, w: usize)
    ensures
        final(out)@ == old(out)@ + pad_right(s@, w as nat),
{
    out.append(s);
    let n = s.unicode_len();
    let mut k = n;
    proof {
        reveal_strlit(" ");
    }
    while k < w
        invariant
            n == s@.len(),
            n <= k,
            k <= w || k == n,
            out@ == old(out)@ + s@ + spaces((k - n) as nat),
        decreases w - k,
    {
        proof {
            reveal_strlit(" ");
        }
        out.append(" ");
        k = k + 1;
        assert(old(out)@ + s@ + spaces((k - n - 1) as nat) + " "@ =~= old(out)@ + s@ + spaces(
            (k - n) as nat,
        ));
    }
    if n >= w {
        assert(out@ =~= old(out)@ + pad_right(s@, w as nat));
    } else {
        assert(out@ =~= old(out)@ + pad_right(s@, w as nat));
    }
}

/// One line of a table: each cell padded to the width of its column, cells
/// separated by one space.
pub fn render_line(cells: &Vec<String>, widths: &Vec<usize>) -> (r: String)
    requires
        cells@.len() <= widths@.len(),
    ensures
        r@ == table_line(cell_texts(cells@), width_values(widths@)),
{
    let mut out = String::new();
    let mut i: usize = 0;
    let ghost ws = width_values(widths@);
    proof {
        reveal_strlit(" ");
    }
    assert(cell_texts(cells@).subrange(0, 0) =~= Seq::<Seq<char>>::empty());
    while i < cells.len()
        invariant
            cells@.len() <= widths@.len(),
            ws == width_values(widths@),
            i <= cells@.len(),
            out@ == table_line(cell_texts(cells@).subrange(0, i as int), ws),
        decreases cells@.len() - i,
    {
        let ghost before = out@;
        let ghost next = cell_texts(cells@).subrange(0, i + 1);
        assert(next.drop_last() =~= cell_texts(cells@).subrange(0, i as int));
        assert(next.last() == cells@[i as int]@);
        proof {
            reveal_strlit(" ");
        }
        if i > 0 {
            out.append(" ");
        }
        push_padded(&mut out, cells[i].as_str(), widths[i]);
        if i > 0 {
            assert(out@ =~= before + seq![' '] + pad_right(cells@[i as int]@, ws[i as int]));
        } else {
            assert(out@ =~= pad_right(cells@[i as int]@, ws[i as int]));
        }
        i = i + 1;
    }
    assert(cell_texts(cells@).subrange(0, cells@.len() as int) =~= cell_texts(cells@));
    out
}

/// A table: the header line, then one line per row.
pub fn render_table(header: &Vec<String>, rows: &Vec<Vec<String>>, widths: &Vec<usize>) -> (r: Vec<
    String,
>)
    requires
        header@.len() <= widths@.len(),
        forall|i: int| 0 <= i < rows@.len() ==> (#[trigger] rows@[i])@.len() <= widths@.len(),
    ensures
        r@.len() == rows@.len() + 1,
        r@[0]@ == table_line(cell_texts(header@), width_values(widths@)),
        forall|i: int|
            0 <= i < rows@.len() ==> (#[trigger] r@[i + 1])@ == table_line(
                cell_texts(rows@[i]@),
                width_values(widths@),
            ),
{
    let mut lines: Vec<String> = Vec::new();
    lines.push(render_line(header, widths));
    let mut i: usize = 0;
    while i < rows.len()
        invariant
            forall|k: int| 0 <= k < rows@.len() ==> (#[trigger] rows@[k])@.len() <= widths@.len(),
            i <= rows@.len(),
            lines@.len() == i + 1,
            lines@[0]@ == table_line(cell_texts(header@), width_values(widths@)),
            forall|k: int|
                0 <= k < i ==> (#[trigger] lines@[k + 1])@ == table_line(
                    cell_texts(rows@[k]@),
                    width_values(widths@),
                ),
        decreases rows@.len() - i,
    {
        let line = render_line(&rows[i], widths);
        lines.push(line);
        i = i + 1;
    }
    lines
}

} // verus!
