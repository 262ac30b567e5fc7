//! Table renderer: turns the tracked host records into rows of styled
//! cells whose column widths are computed from the cell texts alone, so
//! that styling can never disturb the alignment.

use vstd::prelude::*;
use vstd::arithmetic::div_mod::lemma_div_decreases;
use vstd::string::StringExecFns;
use vstd::string::StrSliceExecFns;
use crate::host::Host;
use crate::host::HostModel;
use crate::round::hosts_model;

verus! {

/// Styling of one table cell, applied at paint time only.
#[derive(Clone, Copy, Debug, PartialEq, Eq, Structural)]
pub enum Style {
    Plain,
    /// The host-name column's accent colour.
    Name,
    /// The current-value column's accent colour.
    Current,
}

/// One table cell: plain text and a separate styling annotation.
pub struct Cell {
    pub text: String,
    pub style: Style,
}

/// Mathematical image of a [`Cell`].
pub ghost struct CellModel {
    pub text: Seq<char>,
    pub style: Style,
}

impl View for Cell {
    type V = CellModel;

    open spec fn view(&self) -> CellModel {
        CellModel { text: self.text@, style: self.style }
    }
}

/// The models of a row of cells.
pub open spec fn cells_model(cs: Seq<Cell>) -> Seq<CellModel> {
    cs.map_values(|c: Cell| c@)
}

/// The models of a whole table.
pub open spec fn rows_model(rs: Seq<Vec<Cell>>) -> Seq<Seq<CellModel>> {
    rs.map_values(|r: Vec<Cell>| cells_model(r@))
}

/// The character for one decimal digit.
pub open spec fn digit_char(d: int) -> char
    recommends
        0 <= d < 10,
{
    if d == 0 {
        '0'
    } else if d == 1 {
        '1'
    } else if d == 2 {
        '2'
    } else if d == 3 {
        '3'
    } else if d == 4 {
        '4'
    } else if d == 5 {
        '5'
    } else if d == 6 {
        '6'
    } else if d == 7 {
        '7'
    } else if d == 8 {
        '8'
    } else {
        '9'
    }
}

/// The decimal digits of `v`, most significant first; empty for 0.
pub open spec fn dec_digits(v: nat) -> Seq<char>
    decreases v,
    via dec_digits_decreases
{
    if v == 0 {
        Seq::<char>::empty()
    } else {
        dec_digits(v / 10) + seq![digit_char((v % 10) as int)]
    }
}

#[via_fn]
proof fn dec_digits_decreases(v: nat) {
    if v > 0 {
        lemma_div_decreases(v as int, 10);
    }
}

/// The decimal rendering of `v`: its digits, or "0" for 0.
pub open spec fn dec_rep(v: nat) -> Seq<char> {
    if v == 0 {
        seq!['0']
    } else {
        dec_digits(v)
    }
}

/// The characters for a sequence of digit values.
pub open spec fn digit_chars(ds: Seq<u64>) -> Seq<char> {
    ds.map_values(|d: u64| digit_char(d as int))
}

/// One decimal digit as text.
fn digit_str(d: u64) -> (r: &'static str)
    requires
        d < 10,
    ensures
        r@ == seq![digit_char(d as int)],
{
    if d == 0 {
        proof {
            reveal_strlit("0");
            assert("0"@ =~= seq![digit_char(0)]);
        }
        "0"
    } else if d == 1 {
        proof {
            reveal_strlit("1");
            assert("1"@ =~= seq![digit_char(1)]);
        }
        "1"
    } else if d == 2 {
        proof {
            reveal_strlit("2");
            assert("2"@ =~= seq![digit_char(2)]);
        }
        "2"
    } else if d == 3 {
        proof {
            reveal_strlit("3");
            assert("3"@ =~= seq![digit_char(3)]);
        }
        "3"
    } else if d == 4 {
        proof {
            reveal_strlit("4");
            assert("4"@ =~= seq![digit_char(4)]);
        }
        "4"
    } else if d == 5 {
        proof {
            reveal_strlit("5");
            assert("5"@ =~= seq![digit_char(5)]);
        }
        "5"
    } else if d == 6 {
        proof {
            reveal_strlit("6");
            assert("6"@ =~= seq![digit_char(6)]);
        }
        "6"
    } else if d == 7 {
        proof {
            reveal_strlit("7");
            assert("7"@ =~= seq![digit_char(7)]);
        }
        "7"
    } else if d == 8 {
        proof {
            reveal_strlit("8");
            assert("8"@ =~= seq![digit_char(8)]);
        }
        "8"
    } else {
        proof {
            reveal_strlit("9");
            assert("9"@ =~= seq![digit_char(9)]);
        }
        "9"
    }
}

/// Renders `v` in decimal.
pub fn u64_to_dec(v: u64) -> (s: String)
    ensures
        s@ == dec_rep(v as nat),
{
    if v == 0 {
        proof {
            reveal_strlit("0");
            assert("0"@ =~= seq!['0']);
        }
        return "0".to_owned();
    }
    let mut digits: Vec<u64> = Vec::new();
    let mut x = v;
    while x > 0
        invariant
            v > 0,
            forall|t: int| 0 <= t < digits@.len() ==> #[trigger] digits@[t] < 10,
            dec_digits(v as nat) == dec_digits(x as nat) + digit_chars(digits@).reverse(),
        decreases x,
    {
        let ghost x0 = x as nat;
        let ghost ds0 = digits@;
        let d = x % 10;
        digits.push(d);
        x = x / 10;
        proof {
            assert(dec_digits(x0) == dec_digits(x0 / 10) + seq![digit_char((x0 % 10) as int)]);
            assert(digit_chars(digits@).reverse() =~= seq![digit_char(d as int)] + digit_chars(
                ds0,
            ).reverse());
            assert(dec_digits(x as nat) + digit_chars(digits@).reverse() =~= (dec_digits(
                x as nat,
            ) + seq![digit_char(d as int)]) + digit_chars(ds0).reverse());
        }
    }
    proof {
        assert(dec_digits(0nat) == Seq::<char>::empty());
        assert(dec_digits(v as nat) =~= digit_chars(digits@).reverse());
    }
    let ghost rev = digit_chars(digits@).reverse();
    let dlen = digits.len();
    let mut s = String::new();
    let mut i = dlen;
    while i > 0
        invariant
            i <= dlen,
            dlen == digits@.len(),
            rev == digit_chars(digits@).reverse(),
            forall|t: int| 0 <= t < digits@.len() ==> #[trigger] digits@[t] < 10,
            s@ == rev.subrange(0, dlen - i),
        decreases i,
    {
        i = i - 1;
        let piece = digit_str(digits[i]);
        s.append(piece);
        proof {
            let p = dlen - 1 - i;
            assert(rev[p] == digit_chars(digits@)[dlen - 1 - p]);
            assert(rev[p] == digit_char(digits@[i as int] as int));
            assert(s@ =~= rev.subrange(0, p + 1));
        }
    }
    proof {
        assert(s@ =~= rev);
    }
    s
}

/// `t` padded on the right with spaces up to width `w`.
pub open spec fn padded(t: Seq<char>, w: nat) -> Seq<char>
    recommends
        t.len() <= w,
{
    t + Seq::new((w - t.len()) as nat, |k: int| ' ')
}

/// Pads `text` on the right with spaces to exactly `w` characters.
fn pad_to(text: &String, w: usize) -> (r: String)
    requires
        text@.len() <= w,
    ensures
        r@ == padded(text@, w as nat),
{
    let mut r = text.clone();
    let mut k = text.as_str().unicode_len();
    while k < w
        invariant
            text@.len() <= k <= w,
            r@ == text@ + Seq::new((k - text@.len()) as nat, |t: int| ' '),
        decreases w - k,
    {
        r.append(" ");
        k = k + 1;
        proof {
            reveal_strlit(" ");
            assert(" "@ =~= seq![' ']);
            assert(r@ =~= text@ + Seq::new((k - text@.len()) as nat, |t: int| ' '));
        }
    }
    proof {
        assert(r@ =~= padded(text@, w as nat));
    }
    r
}

/// The header row.
pub open spec fn header_row_model() -> Seq<CellModel> {
    seq![
        CellModel { text: "NAME"@, style: Style::Plain },
        CellModel { text: "ADDRESS"@, style: Style::Plain },
        CellModel { text: "AVG"@, style: Style::Plain },
        CellModel { text: "MIN"@, style: Style::Plain },
        CellModel { text: "MAX"@, style: Style::Plain },
        CellModel { text: "CURRENT"@, style: Style::Plain },
    ]
}

/// The blank spacer row under the header.
pub open spec fn spacer_row_model() -> Seq<CellModel> {
    Seq::new(6, |j: int| CellModel { text: Seq::<char>::empty(), style: Style::Plain })
}

/// One host's table row: name (accented), address or a placeholder, then
/// the statistics and the current value in truncated whole milliseconds.
pub open spec fn host_row_model(m: HostModel) -> Seq<CellModel> {
    seq![
        CellModel { text: m.name, style: Style::Name },
        CellModel {
            text: match m.address {
                Some(a) => a,
                None => "<unknown>"@,
            },
            style: Style::Plain,
        },
        CellModel { text: dec_rep((m.avg / 1000) as nat), style: Style::Plain },
        CellModel { text: dec_rep((m.min / 1000) as nat), style: Style::Plain },
        CellModel { text: dec_rep((m.max / 1000) as nat), style: Style::Plain },
        CellModel { text: dec_rep((m.current / 1000) as nat), style: Style::Current },
    ]
}

/// The whole unaligned table: header, spacer, one row per host in order.
pub open spec fn table_model(hs: Seq<HostModel>) -> Seq<Seq<CellModel>> {
    seq![header_row_model(), spacer_row_model()] + hs.map_values(|m: HostModel| host_row_model(m))
}

fn header_cells() -> (row: Vec<Cell>)
    ensures
        cells_model(row@) == header_row_model(),
{
    let mut row: Vec<Cell> = Vec::new();
    row.push(Cell { text: "NAME".to_owned(), style: Style::Plain });
    row.push(Cell { text: "ADDRESS".to_owned(), style: Style::Plain });
    row.push(Cell { text: "AVG".to_owned(), style: Style::Plain });
    row.push(Cell { text: "MIN".to_owned(), style: Style::Plain });
    row.push(Cell { text: "MAX".to_owned(), style: Style::Plain });
    row.push(Cell { text: "CURRENT".to_owned(), style: Style::Plain });
    proof {
        assert(cells_model(row@) =~= header_row_model());
    }
    row
}

fn spacer_cells() -> (row: Vec<Cell>)
    ensures
        cells_model(row@) == spacer_row_model(),
{
    let mut row: Vec<Cell> = Vec::new();
    row.push(Cell { text: String::new(), style: Style::Plain });
    row.push(Cell { text: String::new(), style: Style::Plain });
    row.push(Cell { text: String::new(), style: Style::Plain });
    row.push(Cell { text: String::new(), style: Style::Plain });
    row.push(Cell { text: String::new(), style: Style::Plain });
    row.push(Cell { text: String::new(), style: Style::Plain });
    proof {
        assert(cells_model(row@) =~= spacer_row_model());
    }
    row
}

/// Builds one host's row of cells.
pub fn host_cells(host: &Host) -> (row: Vec<Cell>)
    ensures
        cells_model(row@) == host_row_model(host@),
{
    let name_text = host.name.clone();
    let addr_text = match &host.address {
        Some(a) => a.clone(),
        None => "<unknown>".to_owned(),
    };
    let avg_text = u64_to_dec(host.avg / 1000);
    let min_text = u64_to_dec(host.min / 1000);
    let max_text = u64_to_dec(host.max / 1000);
    let cur_text = u64_to_dec(host.current / 1000);
    let mut row: Vec<Cell> = Vec::new();
    row.push(Cell { text: name_text, style: Style::Name });
    row.push(Cell { text: addr_text, style: Style::Plain });
    row.push(Cell { text: avg_text, style: Style::Plain });
    row.push(Cell { text: min_text, style: Style::Plain });
    row.push(Cell { text: max_text, style: Style::Plain });
    row.push(Cell { text: cur_text, style: Style::Current });
    proof {
        assert(cells_model(row@) =~= host_row_model(host@));
    }
    row
}

/// Builds the unaligned table for the current records.
pub fn render_table(hosts: &Vec<Host>) -> (rows: Vec<Vec<Cell>>)
    ensures
        rows_model(rows@) == table_model(hosts_model(hosts@)),
        rows@.len() == hosts@.len() + 2,
        forall|i: int| 0 <= i < rows@.len() ==> (#[trigger] rows@[i])@.len() == 6,
{
    let mut rows: Vec<Vec<Cell>> = Vec::new();
    rows.push(header_cells());
    rows.push(spacer_cells());
    proof {
        assert(rows_model(rows@) =~= table_model(hosts_model(hosts@).subrange(0, 0)));
    }
    let n = hosts.len();
    let mut i: usize = 0;
    while i < n
        invariant
            i <= n,
            n == hosts@.len(),
            rows@.len() == i + 2,
            rows_model(rows@) == table_model(hosts_model(hosts@).subrange(0, i as int)),
        decreases n - i,
    {
        let row = host_cells(&hosts[i]);
        let ghost rows0 = rows@;
        let ghost rowm = cells_model(row@);
        rows.push(row);
        proof {
            assert(rows_model(rows@) =~= rows_model(rows0).push(rowm));
            let hm = hosts_model(hosts@);
            assert(hm[i as int] == hosts@[i as int]@);
            assert(hm.subrange(0, i as int + 1) =~= hm.subrange(0, i as int).push(hm[i as int]));
            assert(hm.subrange(0, i as int + 1).map_values(|m: HostModel| host_row_model(m))
                =~= hm.subrange(0, i as int).map_values(|m: HostModel| host_row_model(m)).push(
                host_row_model(hm[i as int]),
            ));
            assert(rows_model(rows@) =~= table_model(hm.subrange(0, i as int + 1)));
        }
        i = i + 1;
    }
    proof {
        assert(hosts_model(hosts@).subrange(0, n as int) =~= hosts_model(hosts@));
        assert(forall|t: int|
            0 <= t < rows@.len() ==> (#[trigger] rows@[t])@.len() == rows_model(rows@)[t].len());
        assert(forall|t: int|
            2 <= t < rows@.len() ==> rows_model(rows@)[t] == host_row_model(
                hosts_model(hosts@)[t - 2],
            ));
    }
    rows
}

/// Width of column `j`: the longest cell text that any row shows there.
/// It is computed from the texts alone; styles play no part.
pub open spec fn col_width(m: Seq<Seq<CellModel>>, j: int) -> nat
    decreases m.len(),
{
    if m.len() == 0 {
        0
    } else {
        let rest = col_width(m.drop_last(), j);
        let cur = if 0 <= j < m.last().len() {
            m.last()[j].text.len()
        } else {
            0
        };
        if cur > rest {
            cur
        } else {
            rest
        }
    }
}

/// The table after alignment: every cell padded to its column's width,
/// styles kept as they were.
pub open spec fn aligned_model(m: Seq<Seq<CellModel>>, cols: nat) -> Seq<Seq<CellModel>> {
    Seq::new(
        m.len(),
        |i: int|
            Seq::new(
                cols as nat,
                |j: int|
                    CellModel {
                        text: padded(m[i][j].text, col_width(m, j)),
                        style: m[i][j].style,
                    },
            ),
    )
}

/// No cell text is longer than its column's width.
pub proof fn lemma_col_width_ge(m: Seq<Seq<CellModel>>, i: int, j: int)
    requires
        0 <= i < m.len(),
        0 <= j < m[i].len(),
    ensures
        m[i][j].text.len() <= col_width(m, j),
    decreases m.len(),
{
    if i == m.len() - 1 {
        assert(m.last() == m[i]);
    } else {
        lemma_col_width_ge(m.drop_last(), i, j);
        assert(m.drop_last()[i] == m[i]);
    }
}

/// Width-independence law, first half: in the aligned table every cell of
/// a column has exactly the column's width, so the column boundaries line
/// up across all rows.
pub proof fn lemma_aligned_widths(m: Seq<Seq<CellModel>>, cols: nat)
    requires
        forall|i: int| 0 <= i < m.len() ==> (#[trigger] m[i]).len() == cols,
    ensures
        forall|i: int, j: int|
            0 <= i < m.len() && 0 <= j < cols ==> (#[trigger] aligned_model(m, cols)[i][j])
                .text.len() == col_width(m, j),
{
    assert forall|i: int, j: int|
        0 <= i < m.len() && 0 <= j < cols implies (#[trigger] aligned_model(m, cols)[i][j])
        .text.len() == col_width(m, j) by {
        lemma_col_width_ge(m, i, j);
    }
}

/// Width-independence law, second half: two tables whose cells carry the
/// same texts get the same column widths, whatever their styles.
pub proof fn lemma_widths_ignore_styles(a: Seq<Seq<CellModel>>, b: Seq<Seq<CellModel>>, j: int)
    requires
        a.len() == b.len(),
        forall|i: int| 0 <= i < a.len() ==> (#[trigger] a[i]).len() == b[i].len(),
        forall|i: int, k: int|
            0 <= i < a.len() && 0 <= k < a[i].len() ==> (#[trigger] a[i][k]).text == b[i][k].text,
    ensures
        col_width(a, j) == col_width(b, j),
    decreases a.len(),
{
    if a.len() > 0 {
        let n = a.len() - 1;
        assert forall|i: int| 0 <= i < n implies (#[trigger] a.drop_last()[i]).len()
            == b.drop_last()[i].len() by {
            assert(a.drop_last()[i] == a[i]);
            assert(b.drop_last()[i] == b[i]);
        }
        assert forall|i: int, k: int|
            0 <= i < n && 0 <= k < a.drop_last()[i].len() implies (#[trigger] a.drop_last()[i][k])
            .text == b.drop_last()[i][k].text by {
            assert(a.drop_last()[i] == a[i]);
            assert(b.drop_last()[i] == b[i]);
        }
        lemma_widths_ignore_styles(a.drop_last(), b.drop_last(), j);
        assert(a.last() == a[n] && b.last() == b[n]);
        if 0 <= j < a[n].len() {
            assert(a[n][j].text == b[n][j].text);
        }
    }
}

/// Pads every cell to its column's width, keeping the styles. Column
/// widths are measured over the plain cell texts only.
pub fn align_rows(rows: &Vec<Vec<Cell>>, cols: usize) -> (out: Vec<Vec<Cell>>)
    requires
        forall|i: int| 0 <= i < rows@.len() ==> (#[trigger] rows@[i])@.len() == cols as nat,
    ensures
        out@.len() == rows@.len(),
        rows_model(out@) == aligned_model(rows_model(rows@), cols as nat),
{
    let ghost m = rows_model(rows@);
    proof {
        assert(forall|i: int| 0 <= i < m.len() ==> (#[trigger] m[i]).len() == cols as nat);
    }
    let nrows = rows.len();
    let mut widths: Vec<usize> = Vec::new();
    let mut j: usize = 0;
    while j < cols
        invariant
            j <= cols,
            widths@.len() == j,
            nrows == rows@.len(),
            m == rows_model(rows@),
            forall|t: int| 0 <= t < j ==> (#[trigger] widths@[t]) as nat == col_width(m, t),
            forall|t2: int| 0 <= t2 < rows@.len() ==> (#[trigger] rows@[t2])@.len() == cols as nat,
        decreases cols - j,
    {
        let mut w: usize = 0;
        let mut i: usize = 0;
        proof {
            assert(m.subrange(0, 0) =~= Seq::<Seq<CellModel>>::empty());
        }
        while i < nrows
            invariant
                i <= nrows,
                j < cols,
                nrows == rows@.len(),
                m == rows_model(rows@),
                w as nat == col_width(m.subrange(0, i as int), j as int),
                forall|t2: int| 0 <= t2 < rows@.len() ==> (#[trigger] rows@[t2])@.len() == cols as nat,
            decreases nrows - i,
        {
            let r = &rows[i];
            let len_ij = r[j].text.as_str().unicode_len();
            proof {
                let pre = m.subrange(0, i as int);
                let now = m.subrange(0, i as int + 1);
                assert(now.drop_last() =~= pre);
                assert(now.last() == m[i as int]);
                assert(m[i as int] == cells_model(rows@[i as int]@));
                assert(m[i as int][j as int].text == rows@[i as int]@[j as int]@.text);
            }
            if len_ij > w {
                w = len_ij;
            }
            i = i + 1;
        }
        proof {
            assert(m.subrange(0, nrows as int) =~= m);
        }
        widths.push(w);
        j = j + 1;
    }
    let mut out: Vec<Vec<Cell>> = Vec::new();
    let mut i: usize = 0;
    while i < nrows
        invariant
            i <= nrows,
            nrows == rows@.len(),
            m == rows_model(rows@),
            widths@.len() == cols,
            forall|t: int| 0 <= t < cols ==> (#[trigger] widths@[t]) as nat == col_width(m, t),
            out@.len() == i,
            forall|t: int|
                0 <= t < i ==> #[trigger] rows_model(out@)[t] == aligned_model(
                    m,
                    cols as nat,
                )[t],
            forall|t2: int| 0 <= t2 < rows@.len() ==> (#[trigger] rows@[t2])@.len() == cols as nat,
        decreases nrows - i,
    {
        let mut row: Vec<Cell> = Vec::new();
        let mut jj: usize = 0;
        while jj < cols
            invariant
                jj <= cols,
                i < nrows,
                nrows == rows@.len(),
                m == rows_model(rows@),
                widths@.len() == cols,
                forall|t: int| 0 <= t < cols ==> (#[trigger] widths@[t]) as nat == col_width(
                    m,
                    t,
                ),
                row@.len() == jj,
                forall|t: int|
                    0 <= t < jj ==> #[trigger] cells_model(row@)[t] == aligned_model(
                        m,
                        cols as nat,
                    )[i as int][t],
                forall|t2: int| 0 <= t2 < rows@.len() ==> (#[trigger] rows@[t2])@.len() == cols as nat,
            decreases cols - jj,
        {
            let src = &rows[i];
            let c = &src[jj];
            proof {
                assert(m[i as int] == cells_model(rows@[i as int]@));
                assert(m[i as int][jj as int].text == c.text@);
                assert(m[i as int][jj as int].style == c.style);
                lemma_col_width_ge(m, i as int, jj as int);
            }
            let t = pad_to(&c.text, widths[jj]);
            let ghost tm = t@;
            let ghost row0 = row@;
            row.push(Cell { text: t, style: c.style });
            jj = jj + 1;
            proof {
                let jl = jj as int - 1;
                assert(cells_model(row@) =~= cells_model(row0).push(
                    CellModel { text: tm, style: c.style },
                ));
                assert(tm == padded(m[i as int][jl].text, col_width(m, jl)));
                assert(aligned_model(m, cols as nat)[i as int][jl] == (CellModel {
                    text: padded(m[i as int][jl].text, col_width(m, jl)),
                    style: m[i as int][jl].style,
                }));
            }
        }
        let ghost out0 = out@;
        let ghost rowm = cells_model(row@);
        out.push(row);
        i = i + 1;
        proof {
            assert(rows_model(out@) =~= rows_model(out0).push(rowm));
            assert(rowm =~= aligned_model(m, cols as nat)[i as int - 1]);
        }
    }
    proof {
        assert(rows_model(out@) =~= aligned_model(m, cols as nat));
    }
    out
}

/// Renders the aligned frame for the current records: a header row, a
/// blank spacer row, and one row per host in order, every cell padded to
/// the width of the longest text in its column.
pub fn render_frame(hosts: &Vec<Host>) -> (rows: Vec<Vec<Cell>>)
    ensures
        rows@.len() == hosts@.len() + 2,
        rows_model(rows@) == aligned_model(table_model(hosts_model(hosts@)), 6),
{
    let table = render_table(hosts);
    align_rows(&table, 6)
}

} // verus!
