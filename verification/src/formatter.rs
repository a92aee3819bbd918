//! Text rendering: key/value blocks for a single record and rows for the
//! table of a list. The caller prints the lines and the table; `--json`
//! output is the records themselves.

use vstd::prelude::*;

use crate::details::{Building, Exemption, TaxYear};
use crate::model::{copy_strings, opt_view, Parcel, ParcelList, Sale, Values};
use crate::money::{money_text, Money};
use crate::text::{
    chars_of, dec, dec_u64, join, join_strings, pad_right, pad_right_chars, string_of, trim, trim_str,
    views,
};

verus! {

/// What absent values render as, so columns stay aligned.
pub open spec fn dash() -> Seq<char> {
    "—"@
}

/// A value, or the dash when it is absent or blank.
pub open spec fn or_dash_text(v: Option<Seq<char>>) -> Seq<char> {
    match v {
        Some(s) => if trim(s).len() > 0 {
            s
        } else {
            dash()
        },
        None => dash(),
    }
}

/// A sum of money as text, or the dash.
pub open spec fn money_or_dash(m: Option<Money>) -> Seq<char> {
    match m {
        Some(x) => money_text(x.amount@),
        None => dash(),
    }
}

/// A value, or the dash when it is absent or blank.
pub fn or_dash(v: Option<&str>) -> (r: String)
    ensures
        r@ == or_dash_text(
            match v {
                Some(s) => Some(s@),
                None => None,
            },
        ),
{
    match v {
        Some(s) => {
            let t = trim_str(s);
            if t.as_str().unicode_len() > 0 {
                string_of(&chars_of(s))
            } else {
                string_of(&chars_of("—"))
            }
        },
        None => string_of(&chars_of("—")),
    }
}

/// A sum of money as text, or the dash.
pub fn money_str(m: Option<&Money>) -> (r: String)
    ensures
        r@ == money_or_dash(
            match m {
                Some(x) => Some(*x),
                None => None,
            },
        ),
{
    match m {
        Some(x) => x.display(),
        None => string_of(&chars_of("—")),
    }
}

fn opt_str(o: &Option<String>) -> (r: Option<&str>)
    ensures
        match r {
            Some(s) => Some(s@),
            None => None,
        } == opt_view(*o),
{
    match o {
        Some(s) => Some(s.as_str()),
        None => None,
    }
}

fn opt_money(o: &Option<Money>) -> (r: Option<&Money>)
    ensures
        match r {
            Some(x) => Some(*x),
            None => None,
        } == *o,
{
    match o {
        Some(x) => Some(x),
        None => None,
    }
}

/// `a` then `b`.
pub fn cat(a: &str, b: &str) -> (r: String)
    ensures
        r@ == a@ + b@,
{
    let mut v = chars_of(a);
    let mut w = chars_of(b);
    v.append(&mut w);
    string_of(&v)
}

/// One cell of a table row: its column and its text.
#[derive(Debug)]
pub struct Cell {
    pub column: String,
    pub value: String,
}

pub open spec fn cell_views(row: Seq<Cell>) -> Seq<(Seq<char>, Seq<char>)> {
    Seq::new(row.len(), |i: int| (row[i].column@, row[i].value@))
}

fn cell(column: &str, value: String) -> (r: Cell)
    ensures
        r.column@ == column@,
        r.value@ == value@,
{
    Cell { column: string_of(&chars_of(column)), value }
}

/// Text output: lines, then a table (when it has rows), then more lines.
#[derive(Debug)]
pub struct Screen {
    pub before: Vec<String>,
    pub table: Vec<Vec<Cell>>,
    pub after: Vec<String>,
}

pub open spec fn table_views(t: Seq<Vec<Cell>>) -> Seq<Seq<(Seq<char>, Seq<char>)>> {
    Seq::new(t.len(), |i: int| cell_views(t[i]@))
}

/// The larger of two naturals.
pub open spec fn nat_max(a: nat, b: nat) -> nat {
    if a >= b {
        a
    } else {
        b
    }
}

/// The widest value in column `i` over `rows`.
pub open spec fn value_width(rows: Seq<Seq<(Seq<char>, Seq<char>)>>, i: int) -> nat
    decreases rows.len(),
{
    if rows.len() == 0 {
        0
    } else {
        nat_max(
            value_width(rows.drop_last(), i),
            if 0 <= i < rows.last().len() {
                rows.last()[i].1.len()
            } else {
                0
            },
        )
    }
}

/// Each column's width: its name's or its widest value's, whichever is
/// longer. The columns are those of the first row.
pub open spec fn column_widths(rows: Seq<Seq<(Seq<char>, Seq<char>)>>) -> Seq<nat> {
    Seq::new(rows[0].len(), |i: int| nat_max(rows[0][i].0.len(), value_width(rows, i)))
}

/// The parts of a table line, each but the last padded to its column's width.
pub open spec fn padded_parts(parts: Seq<Seq<char>>, widths: Seq<nat>) -> Seq<Seq<char>> {
    Seq::new(
        parts.len(),
        |i: int|
            if i + 1 == parts.len() {
                parts[i]
            } else {
                pad_right(parts[i], widths[i])
            },
    )
}

/// One line of a table.
pub open spec fn table_line(parts: Seq<Seq<char>>, widths: Seq<nat>) -> Seq<char> {
    join(padded_parts(parts, widths), " | "@)
}

/// A row's values, in at most `n` columns.
pub open spec fn row_values(row: Seq<(Seq<char>, Seq<char>)>, n: nat) -> Seq<Seq<char>> {
    Seq::new(
        if row.len() < n {
            row.len()
        } else {
            n
        },
        |i: int| row[i].1,
    )
}

/// `n` dashes.
pub open spec fn dashes(n: nat) -> Seq<char> {
    Seq::new(n, |i: int| '-')
}

/// A table as text: a header of column names, a rule of dashes, then a line
/// per row, the columns separated by ` | ` and padded to a common width.
pub open spec fn table_text(rows: Seq<Seq<(Seq<char>, Seq<char>)>>) -> Seq<Seq<char>> {
    if rows.len() == 0 {
        seq![]
    } else {
        let n = rows[0].len();
        let w = column_widths(rows);
        seq![
            table_line(Seq::new(n, |i: int| rows[0][i].0), w),
            join(Seq::new(n, |i: int| dashes(w[i])), "-|-"@),
        ] + Seq::new(rows.len(), |k: int| table_line(row_values(rows[k], n), w))
    }
}

fn width_of(table: &Vec<Vec<Cell>>, i: usize) -> (r: usize)
    requires
        table@.len() > 0,
        i < table@[0]@.len(),
    ensures
        r as nat == column_widths(table_views(table@))[i as int],
{
    let ghost tv = table_views(table@);
    let mut w: usize = table[0][i].column.as_str().unicode_len();
    let mut k: usize = 0;
    proof {
        assert(tv.take(0) =~= Seq::<Seq<(Seq<char>, Seq<char>)>>::empty());
        assert(tv[0][i as int].0 == table@[0]@[i as int].column@);
    }
    while k < table.len()
        invariant
            k <= table@.len(),
            table@.len() > 0,
            i < table@[0]@.len(),
            tv == table_views(table@),
            w as nat == nat_max(tv[0][i as int].0.len(), value_width(tv.take(k as int), i as int)),
        decreases table.len() - k,
    {
        let row = &table[k];
        let ghost before = w;
        if i < row.len() {
            let l = row[i].value.as_str().unicode_len();
            if l > w {
                w = l;
            }
        }
        proof {
            let t = tv.take(k + 1);
            assert(t.drop_last() =~= tv.take(k as int));
            assert(t.last() == tv[k as int]);
            assert(tv[k as int] == cell_views(table@[k as int]@));
        }
        k = k + 1;
    }
    proof {
        assert(tv.take(table@.len() as int) =~= tv);
    }
    w
}

fn line_text(parts: &Vec<String>, widths: &Vec<usize>) -> (r: String)
    requires
        parts@.len() <= widths@.len(),
    ensures
        r@ == table_line(views(parts@), Seq::new(widths@.len(), |i: int| widths@[i] as nat)),
{
    let ghost wn = Seq::new(widths@.len(), |i: int| widths@[i] as nat);
    let mut padded: Vec<String> = Vec::new();
    let mut i: usize = 0;
    while i < parts.len()
        invariant
            i <= parts@.len() <= widths@.len(),
            wn == Seq::new(widths@.len(), |i: int| widths@[i] as nat),
            views(padded@) =~= padded_parts(views(parts@), wn).take(i as int),
        decreases parts.len() - i,
    {
        let p = if i + 1 == parts.len() {
            parts[i].clone()
        } else {
            string_of(&pad_right_chars(&chars_of(parts[i].as_str()), widths[i]))
        };
        let ghost before = views(padded@);
        padded.push(p);
        proof {
            assert(views(padded@) =~= before.push(p@));
            assert(padded_parts(views(parts@), wn).take(i + 1) =~= padded_parts(
                views(parts@),
                wn,
            ).take(i as int).push(p@));
        }
        i = i + 1;
    }
    proof {
        assert(padded_parts(views(parts@), wn).take(parts@.len() as int) =~= padded_parts(
            views(parts@),
            wn,
        ));
    }
    join_strings(&padded, " | ")
}

/// The lines of a table: header, rule, then one line per row.
pub fn table_lines(table: &Vec<Vec<Cell>>) -> (r: Vec<String>)
    ensures
        views(r@) == table_text(table_views(table@)),
{
    let ghost tv = table_views(table@);
    let mut out: Vec<String> = Vec::new();
    if table.len() == 0 {
        proof {
            assert(views(out@) =~= table_text(tv));
        }
        return out;
    }
    let n = table[0].len();
    let ghost cw = column_widths(tv);
    let mut widths: Vec<usize> = Vec::new();
    let mut names: Vec<String> = Vec::new();
    let mut rules: Vec<String> = Vec::new();
    let mut i: usize = 0;
    while i < n
        invariant
            table@.len() > 0,
            n == table@[0]@.len(),
            tv == table_views(table@),
            cw == column_widths(tv),
            i <= n,
            widths@.len() == i,
            forall|j: int| 0 <= j < i ==> widths@[j] as nat == cw[j],
            views(names@) =~= Seq::new(i as nat, |j: int| tv[0][j].0),
            views(rules@) =~= Seq::new(i as nat, |j: int| dashes(cw[j])),
        decreases n - i,
    {
        let w = width_of(table, i);
        widths.push(w);
        let ghost nb = views(names@);
        let c = table[0][i].column.clone();
        names.push(c);
        let mut d: Vec<char> = Vec::new();
        let mut q: usize = 0;
        while q < w
            invariant
                q <= w,
                d@ =~= Seq::new(q as nat, |x: int| '-'),
            decreases w - q,
        {
            d.push('-');
            q = q + 1;
        }
        let ghost rb = views(rules@);
        rules.push(string_of(&d));
        proof {
            assert(views(names@) =~= nb.push(c@));
            assert(c@ == tv[0][i as int].0);
            assert(views(rules@) =~= rb.push(d@));
            assert(d@ =~= dashes(cw[i as int]));
        }
        i = i + 1;
    }
    let ghost wn = Seq::new(widths@.len(), |j: int| widths@[j] as nat);
    proof {
        assert(wn =~= cw);
    }
    out.push(line_text(&names, &widths));
    out.push(join_strings(&rules, "-|-"));
    let mut k: usize = 0;
    while k < table.len()
        invariant
            table@.len() > 0,
            n == table@[0]@.len(),
            tv == table_views(table@),
            cw == column_widths(tv),
            widths@.len() == n,
            wn == Seq::new(widths@.len(), |j: int| widths@[j] as nat),
            wn == cw,
            k <= table@.len(),
            views(out@) =~= seq![
                table_line(Seq::new(n as nat, |i: int| tv[0][i].0), cw),
                join(Seq::new(n as nat, |i: int| dashes(cw[i])), "-|-"@),
            ] + Seq::new(k as nat, |x: int| table_line(row_values(tv[x], n as nat), cw)),
        decreases table.len() - k,
    {
        let row = &table[k];
        let m = if row.len() < n {
            row.len()
        } else {
            n
        };
        let mut vals: Vec<String> = Vec::new();
        let mut j: usize = 0;
        while j < m
            invariant
                j <= m <= row@.len(),
                views(vals@) =~= Seq::new(j as nat, |x: int| row@[x].value@),
            decreases m - j,
        {
            let ghost vb = views(vals@);
            let v = row[j].value.clone();
            vals.push(v);
            proof {
                assert(views(vals@) =~= vb.push(v@));
            }
            j = j + 1;
        }
        proof {
            assert(tv[k as int] == cell_views(table@[k as int]@));
            assert(views(vals@) =~= row_values(tv[k as int], n as nat));
        }
        let line = line_text(&vals, &widths);
        let ghost ob = views(out@);
        out.push(line);
        proof {
            assert(views(out@) =~= ob.push(line@));
        }
        k = k + 1;
    }
    proof {
        assert(views(out@) =~= table_text(tv));
    }
    out
}

/// All of a screen's lines: those before the table, the table's, and those
/// after it.
pub fn screen_lines(s: &Screen) -> (r: Vec<String>)
    ensures
        views(r@) == views(s.before@) + table_text(table_views(s.table@)) + views(s.after@),
{
    let mut out = copy_strings(&s.before);
    add_all(&mut out, table_lines(&s.table));
    add_all(&mut out, copy_strings(&s.after));
    out
}

/// The search table's row for one parcel.
pub open spec fn search_row(p: crate::model::ParcelSummary) -> Seq<(Seq<char>, Seq<char>)> {
    seq![
        ("pcn"@, p.pcn@),
        ("owner"@, or_dash_text(opt_view(p.owner))),
        ("situs"@, or_dash_text(opt_view(p.situs_address))),
        ("municipality"@, or_dash_text(opt_view(p.municipality))),
        ("market"@, money_or_dash(p.market_value)),
    ]
}

/// The note under a truncated search table.
pub open spec fn truncation_note(shown: nat, total: nat) -> Seq<char> {
    "Showing "@ + dec(shown) + " of "@ + dec(total) + " matches — raise --limit to see more."@
}

/// Search results as text: a row per parcel, and a plain note of how much
/// was withheld when the list is truncated.
pub fn render_search(list: &ParcelList) -> (r: Screen)
    ensures
        list.items@.len() == 0 ==> views(r.before@) == seq!["No matching parcels."@]
            && r.table@.len() == 0 && r.after@.len() == 0,
        list.items@.len() > 0 ==> r.before@.len() == 0 && table_views(r.table@) == Seq::new(
            list.items@.len(),
            |i: int| search_row(list.items@[i]),
        ) && views(r.after@) == (if list.truncated {
            seq![seq![], truncation_note(list.items@.len(), list.total as nat)]
        } else {
            seq![]
        }),
{
    let mut before: Vec<String> = Vec::new();
    let mut table: Vec<Vec<Cell>> = Vec::new();
    let mut after: Vec<String> = Vec::new();
    if list.items.len() == 0 {
        before.push(string_of(&chars_of("No matching parcels.")));
        proof {
            assert(views(before@) =~= seq!["No matching parcels."@]);
        }
        return Screen { before, table, after };
    }
    let mut i: usize = 0;
    while i < list.items.len()
        invariant
            i <= list.items@.len(),
            table_views(table@) =~= Seq::new(i as nat, |k: int| search_row(list.items@[k])),
        decreases list.items.len() - i,
    {
        let p = &list.items[i];
        let mut row: Vec<Cell> = Vec::new();
        row.push(cell("pcn", p.pcn.clone()));
        row.push(cell("owner", or_dash(opt_str(&p.owner))));
        row.push(cell("situs", or_dash(opt_str(&p.situs_address))));
        row.push(cell("municipality", or_dash(opt_str(&p.municipality))));
        row.push(cell("market", money_str(opt_money(&p.market_value))));
        proof {
            assert(cell_views(row@) =~= search_row(list.items@[i as int]));
        }
        let ghost before_t = table@;
        let ghost rv = row@;
        table.push(row);
        proof {
            assert(table_views(table@) =~= table_views(before_t).push(cell_views(rv)));
        }
        i = i + 1;
    }
    if list.truncated {
        after.push(string_of(&Vec::new()));
        let mut v = chars_of("Showing ");
        let mut a = dec_u64(list.items.len() as u64);
        v.append(&mut a);
        let mut b = chars_of(" of ");
        v.append(&mut b);
        let mut c = dec_u64(list.total);
        v.append(&mut c);
        let mut d = chars_of(" matches — raise --limit to see more.");
        v.append(&mut d);
        after.push(string_of(&v));
    }
    proof {
        assert(views(after@) =~= (if list.truncated {
            seq![seq![], truncation_note(list.items@.len(), list.total as nat)]
        } else {
            seq![]
        }));
        assert(views(before@) =~= Seq::<Seq<char>>::empty());
    }
    Screen { before, table, after }
}

fn add_line(lines: &mut Vec<String>, s: String)
    ensures
        views(final(lines)@) == views(old(lines)@).push(s@),
{
    let ghost before = lines@;
    lines.push(s);
    proof {
        assert(views(lines@) =~= views(before).push(s@));
    }
}

fn add_all(lines: &mut Vec<String>, more: Vec<String>)
    ensures
        views(final(lines)@) == views(old(lines)@) + views(more@),
{
    let ghost before = lines@;
    let ghost mv = more@;
    let mut m = more;
    lines.append(&mut m);
    proof {
        assert(views(lines@) =~= views(before) + views(mv));
    }
}

fn lit(s: &str) -> (r: String)
    ensures
        r@ == s@,
{
    string_of(&chars_of(s))
}

/// `seq![line]` when `cond` holds, else nothing.
pub open spec fn line_if(cond: bool, line: Seq<char>) -> Seq<Seq<char>> {
    if cond {
        seq![line]
    } else {
        seq![]
    }
}

/// The optional value's line: `label` and the value, when present.
pub open spec fn labelled(label: Seq<char>, v: Option<Seq<char>>) -> Seq<Seq<char>> {
    match v {
        Some(x) => seq![label + x],
        None => seq![],
    }
}

fn add_labelled(lines: &mut Vec<String>, label: &str, v: &Option<String>)
    ensures
        views(final(lines)@) == views(old(lines)@) + labelled(label@, opt_view(*v)),
{
    match v {
        Some(x) => {
            add_line(lines, cat(label, x.as_str()));
        },
        None => {
            proof {
                assert(views(lines@) + Seq::<Seq<char>>::empty() =~= views(lines@));
            }
        },
    }
}

/// The building block, at the same indent as the other parcel sections;
/// `full` adds the structural-element list.
pub open spec fn building_block_lines(b: Building, full: bool) -> Seq<Seq<char>> {
    seq!["  Building:"@] + match b.year_built {
        Some(y) => seq!["    Year built:         "@ + dec(y as nat)],
        None => seq![],
    } + match b.living_area_sqft {
        Some(a) => seq!["    Living area:        "@ + dec(a as nat) + " sq ft (heated/cooled)"@],
        None => seq![],
    } + match b.total_sqft {
        Some(t) => seq!["    Total under roof:   "@ + dec(t as nat) + " sq ft"@],
        None => seq![],
    } + if full && b.elements@.len() > 0 {
        seq![seq![], "  Structural elements:"@] + Seq::new(
            b.elements@.len(),
            |i: int| "    "@ + pad_right(b.elements@[i].name@, 26) + " "@ + b.elements@[i].value@,
        )
    } else {
        seq![]
    }
}

fn number_line(lines: &mut Vec<String>, label: &str, n: Option<u32>, unit: &str)
    ensures
        views(final(lines)@) == views(old(lines)@) + match n {
            Some(x) => seq![label@ + dec(x as nat) + unit@],
            None => seq![],
        },
{
    match n {
        Some(x) => {
            let mut v = chars_of(label);
            let mut d = dec_u64(x as u64);
            v.append(&mut d);
            let mut u = chars_of(unit);
            v.append(&mut u);
            add_line(lines, string_of(&v));
        },
        None => {
            proof {
                assert(views(lines@) + Seq::<Seq<char>>::empty() =~= views(lines@));
            }
        },
    }
}

/// The building's lines for text output.
pub fn building_block(b: &Building, full: bool) -> (r: Vec<String>)
    ensures
        views(r@) == building_block_lines(*b, full),
{
    let mut lines: Vec<String> = Vec::new();
    add_line(&mut lines, lit("  Building:"));
    number_line(&mut lines, "    Year built:         ", b.year_built, "");
    number_line(&mut lines, "    Living area:        ", b.living_area_sqft, " sq ft (heated/cooled)");
    number_line(&mut lines, "    Total under roof:   ", b.total_sqft, " sq ft");
    let ghost head = views(lines@);
    if full && b.elements.len() > 0 {
        add_line(&mut lines, lit(""));
        add_line(&mut lines, lit("  Structural elements:"));
        let ghost start = views(lines@);
        let mut i: usize = 0;
        while i < b.elements.len()
            invariant
                i <= b.elements@.len(),
                views(lines@) =~= start + Seq::new(
                    i as nat,
                    |k: int| "    "@ + pad_right(b.elements@[k].name@, 26) + " "@ + b.elements@[k].value@,
                ),
            decreases b.elements.len() - i,
        {
            let e = &b.elements[i];
            let mut v = chars_of("    ");
            let name = chars_of(e.name.as_str());
            let mut padded = pad_right_chars(&name, 26);
            v.append(&mut padded);
            v.push(' ');
            let mut val = chars_of(e.value.as_str());
            v.append(&mut val);
            proof {
                assert(v@ =~= "    "@ + pad_right(b.elements@[i as int].name@, 26) + " "@
                    + b.elements@[i as int].value@) by {
                    reveal_strlit(" ");
                }
            }
            add_line(&mut lines, string_of(&v));
            i = i + 1;
        }
        proof {
            reveal_strlit("");
            assert(""@ =~= Seq::<char>::empty());
        }
    }
    proof {
        assert(dec(0) =~= dec(0));
        assert(views(lines@) =~= building_block_lines(*b, full)) by {
            reveal_strlit("");
        }
    }
    lines
}


/// The first owner, when there is one.
pub open spec fn first_owner(owners: Seq<String>) -> Option<Seq<char>> {
    if owners.len() > 0 {
        Some(owners[0]@)
    } else {
        None
    }
}

/// The heading of a parcel: id, confidentiality flag, owners, situs,
/// municipality and mailing address.
pub open spec fn parcel_head(p: Parcel) -> Seq<Seq<char>> {
    seq!["Parcel "@ + p.pcn@] + line_if(
        p.confidential,
        "  ** owner is statutorily confidential (Fla. Stat. §119.071) **"@,
    ) + seq!["  Owner:        "@ + or_dash_text(first_owner(p.owners@))] + Seq::new(
        if p.owners@.len() > 0 {
            (p.owners@.len() - 1) as nat
        } else {
            0
        },
        |i: int| "                "@ + p.owners@[i + 1]@,
    ) + seq!["  Situs:        "@ + or_dash_text(opt_view(p.situs_address))] + labelled(
        "  Municipality: "@,
        opt_view(p.municipality),
    ) + line_if(!p.mailing_address.blank(), "  Mailing:      "@ + p.mailing_address.line())
}

/// The values block of a parcel.
pub open spec fn values_block(v: Values) -> Seq<Seq<char>> {
    seq![
        seq![],
        "  Values:"@,
        "    Market (total):     "@ + money_or_dash(v.market_total),
        "      land:             "@ + money_or_dash(v.market_land),
        "      improvement:      "@ + money_or_dash(v.market_improvement),
        "    Assessed:           "@ + money_or_dash(v.assessed),
        "    Exemptions:         "@ + money_or_dash(v.exemption),
        "    Taxable:            "@ + money_or_dash(v.taxable),
    ] + line_if(v.homestead == Some(true), "    Homestead:          yes"@)
}

/// The last-sale block of a parcel, when it has one.
pub open spec fn sale_block(s: Option<Sale>) -> Seq<Seq<char>> {
    match s {
        Some(sale) => seq![
            seq![],
            "  Last sale:"@,
            "    Date:               "@ + or_dash_text(opt_view(sale.date)),
            "    Price:              "@ + money_or_dash(sale.price),
        ] + match (sale.book, sale.page) {
            (Some(b), Some(pg)) => seq!["    OR book/page:       "@ + b@ + " / "@ + pg@],
            _ => seq![],
        } + labelled("    Instrument:         "@, opt_view(sale.instrument)),
        None => seq![],
    }
}

/// The property block of a parcel.
pub open spec fn property_block(p: Parcel) -> Seq<Seq<char>> {
    seq![seq![], "  Property:"@] + labelled("    Use code:           "@, opt_view(p.property_use))
        + labelled("    Subdivision:        "@, opt_view(p.subdivision)) + labelled(
        "    Acres:              "@,
        opt_view(p.acres),
    ) + labelled("    Legal:              "@, opt_view(p.legal_description)) + labelled(
        "    Coordinates:        "@,
        opt_view(p.coordinates),
    )
}

/// The full text rendering of a parcel.
pub open spec fn parcel_text(p: Parcel) -> Seq<Seq<char>> {
    parcel_head(p) + values_block(p.values) + sale_block(p.last_sale) + match p.building {
        Some(b) => seq![seq![]] + building_block_lines(b, false),
        None => seq![],
    } + property_block(p)
}

fn add_if(lines: &mut Vec<String>, cond: bool, s: &str)
    ensures
        views(final(lines)@) == views(old(lines)@) + line_if(cond, s@),
{
    if cond {
        add_line(lines, lit(s));
    } else {
        proof {
            assert(views(lines@) + Seq::<Seq<char>>::empty() =~= views(lines@));
        }
    }
}

fn add_money(lines: &mut Vec<String>, label: &str, m: &Option<Money>)
    ensures
        views(final(lines)@) == views(old(lines)@).push(label@ + money_or_dash(*m)),
{
    add_line(lines, cat(label, money_str(opt_money(m)).as_str()));
}

fn add_dashed(lines: &mut Vec<String>, label: &str, v: &Option<String>)
    ensures
        views(final(lines)@) == views(old(lines)@).push(label@ + or_dash_text(opt_view(*v))),
{
    add_line(lines, cat(label, or_dash(opt_str(v)).as_str()));
}

fn head_lines(p: &Parcel) -> (r: Vec<String>)
    ensures
        views(r@) == parcel_head(*p),
{
    let mut lines: Vec<String> = Vec::new();
    add_line(&mut lines, cat("Parcel ", p.pcn.as_str()));
    add_if(&mut lines, p.confidential, "  ** owner is statutorily confidential (Fla. Stat. §119.071) **");
    let first: Option<&str> = if p.owners.len() > 0 {
        Some(p.owners[0].as_str())
    } else {
        None
    };
    add_line(&mut lines, cat("  Owner:        ", or_dash(first).as_str()));
    let ghost start = views(lines@);
    let mut i: usize = 1;
    while i < p.owners.len()
        invariant
            1 <= i,
            p.owners@.len() > 0 ==> i <= p.owners@.len(),
            p.owners@.len() == 0 ==> i == 1,
            views(lines@) =~= start + Seq::new(
                (i - 1) as nat,
                |k: int| "                "@ + p.owners@[k + 1]@,
            ),
        decreases p.owners.len() - i,
    {
        add_line(&mut lines, cat("                ", p.owners[i].as_str()));
        i = i + 1;
    }
    proof {
        let n: nat = if p.owners@.len() > 0 {
            (p.owners@.len() - 1) as nat
        } else {
            0
        };
        assert(Seq::new((i - 1) as nat, |k: int| "                "@ + p.owners@[k + 1]@) =~= Seq::new(
            n,
            |k: int| "                "@ + p.owners@[k + 1]@,
        ));
    }
    add_dashed(&mut lines, "  Situs:        ", &p.situs_address);
    add_labelled(&mut lines, "  Municipality: ", &p.municipality);
    if !p.mailing_address.is_empty() {
        add_line(&mut lines, cat("  Mailing:      ", p.mailing_address.one_line().as_str()));
    }
    proof {
        assert(views(lines@) =~= parcel_head(*p));
    }
    lines
}

fn value_lines(v: &Values) -> (r: Vec<String>)
    ensures
        views(r@) == values_block(*v),
{
    let mut lines: Vec<String> = Vec::new();
    add_line(&mut lines, lit(""));
    add_line(&mut lines, lit("  Values:"));
    add_money(&mut lines, "    Market (total):     ", &v.market_total);
    add_money(&mut lines, "      land:             ", &v.market_land);
    add_money(&mut lines, "      improvement:      ", &v.market_improvement);
    add_money(&mut lines, "    Assessed:           ", &v.assessed);
    add_money(&mut lines, "    Exemptions:         ", &v.exemption);
    add_money(&mut lines, "    Taxable:            ", &v.taxable);
    let home = match v.homestead {
        Some(true) => true,
        _ => false,
    };
    add_if(&mut lines, home, "    Homestead:          yes");
    proof {
        reveal_strlit("");
        assert(""@ =~= Seq::<char>::empty());
        assert(views(lines@) =~= values_block(*v));
    }
    lines
}

fn sale_lines(s: &Option<Sale>) -> (r: Vec<String>)
    ensures
        views(r@) == sale_block(*s),
{
    let mut lines: Vec<String> = Vec::new();
    match s {
        Some(sale) => {
            add_line(&mut lines, lit(""));
            add_line(&mut lines, lit("  Last sale:"));
            add_dashed(&mut lines, "    Date:               ", &sale.date);
            add_money(&mut lines, "    Price:              ", &sale.price);
            match (&sale.book, &sale.page) {
                (Some(b), Some(pg)) => {
                    let mut v = chars_of("    OR book/page:       ");
                    let mut bc = chars_of(b.as_str());
                    v.append(&mut bc);
                    let mut sep = chars_of(" / ");
                    v.append(&mut sep);
                    let mut pc = chars_of(pg.as_str());
                    v.append(&mut pc);
                    add_line(&mut lines, string_of(&v));
                },
                _ => {},
            }
            add_labelled(&mut lines, "    Instrument:         ", &sale.instrument);
            proof {
                reveal_strlit("");
                assert(""@ =~= Seq::<char>::empty());
                assert(views(lines@) =~= sale_block(*s));
            }
        },
        None => {
            proof {
                assert(views(lines@) =~= sale_block(*s));
            }
        },
    }
    lines
}

fn property_lines(p: &Parcel) -> (r: Vec<String>)
    ensures
        views(r@) == property_block(*p),
{
    let mut lines: Vec<String> = Vec::new();
    add_line(&mut lines, lit(""));
    add_line(&mut lines, lit("  Property:"));
    add_labelled(&mut lines, "    Use code:           ", &p.property_use);
    add_labelled(&mut lines, "    Subdivision:        ", &p.subdivision);
    add_labelled(&mut lines, "    Acres:              ", &p.acres);
    add_labelled(&mut lines, "    Legal:              ", &p.legal_description);
    add_labelled(&mut lines, "    Coordinates:        ", &p.coordinates);
    proof {
        reveal_strlit("");
        assert(""@ =~= Seq::<char>::empty());
        assert(views(lines@) =~= property_block(*p));
    }
    lines
}

/// A parcel as text: heading, values, last sale, building headline numbers
/// (when the detail page was read) and property facts.
pub fn render_parcel(p: &Parcel) -> (r: Vec<String>)
    ensures
        views(r@) == parcel_text(*p),
{
    let mut lines = head_lines(p);
    add_all(&mut lines, value_lines(&p.values));
    add_all(&mut lines, sale_lines(&p.last_sale));
    match &p.building {
        Some(b) => {
            add_line(&mut lines, lit(""));
            add_all(&mut lines, building_block(b, false));
        },
        None => {},
    }
    add_all(&mut lines, property_lines(p));
    proof {
        reveal_strlit("");
        assert(""@ =~= Seq::<char>::empty());
        assert(views(lines@) =~= parcel_text(*p));
    }
    lines
}


/// The sales table's row for one sale.
pub open spec fn sale_row(s: Sale) -> Seq<(Seq<char>, Seq<char>)> {
    seq![
        ("date"@, or_dash_text(opt_view(s.date))),
        ("price"@, money_or_dash(s.price)),
        ("type"@, or_dash_text(opt_view(s.instrument))),
        ("book_page"@, match (s.book, s.page) {
            (Some(b), Some(pg)) => b@ + "/"@ + pg@,
            _ => dash(),
        }),
        ("owner"@, or_dash_text(opt_view(s.owner))),
    ]
}

fn book_page(s: &Sale) -> (r: String)
    ensures
        r@ == match (s.book, s.page) {
            (Some(b), Some(pg)) => b@ + "/"@ + pg@,
            _ => dash(),
        },
{
    match (&s.book, &s.page) {
        (Some(b), Some(pg)) => {
            let mut v = chars_of(b.as_str());
            let mut sep = chars_of("/");
            v.append(&mut sep);
            let mut pc = chars_of(pg.as_str());
            v.append(&mut pc);
            string_of(&v)
        },
        _ => lit("—"),
    }
}

/// A sale history as text: a heading and a row per sale, or a plain
/// sentence when there is none.
pub fn render_sales(pcn: &str, sales: &[Sale]) -> (r: Screen)
    ensures
        sales@.len() == 0 ==> views(r.before@) == seq![
            "No recorded sales for parcel "@ + pcn@ + "."@,
        ] && r.table@.len() == 0,
        sales@.len() > 0 ==> views(r.before@) == seq!["Sales for parcel "@ + pcn@, seq![]]
            && table_views(r.table@) == Seq::new(sales@.len(), |i: int| sale_row(sales@[i])),
        r.after@.len() == 0,
{
    let mut before: Vec<String> = Vec::new();
    let mut table: Vec<Vec<Cell>> = Vec::new();
    let after: Vec<String> = Vec::new();
    if sales.len() == 0 {
        let mut v = chars_of("No recorded sales for parcel ");
        let mut pc = chars_of(pcn);
        v.append(&mut pc);
        let mut dot = chars_of(".");
        v.append(&mut dot);
        add_line(&mut before, string_of(&v));
        proof {
            assert(views(before@) =~= seq!["No recorded sales for parcel "@ + pcn@ + "."@]);
        }
        return Screen { before, table, after };
    }
    add_line(&mut before, cat("Sales for parcel ", pcn));
    add_line(&mut before, lit(""));
    let mut i: usize = 0;
    while i < sales.len()
        invariant
            i <= sales@.len(),
            table_views(table@) =~= Seq::new(i as nat, |k: int| sale_row(sales@[k])),
        decreases sales.len() - i,
    {
        let s = &sales[i];
        let mut row: Vec<Cell> = Vec::new();
        row.push(cell("date", or_dash(opt_str(&s.date))));
        row.push(cell("price", money_str(opt_money(&s.price))));
        row.push(cell("type", or_dash(opt_str(&s.instrument))));
        row.push(cell("book_page", book_page(s)));
        row.push(cell("owner", or_dash(opt_str(&s.owner))));
        proof {
            assert(cell_views(row@) =~= sale_row(sales@[i as int]));
        }
        let ghost before_t = table@;
        let ghost rv = row@;
        table.push(row);
        proof {
            assert(table_views(table@) =~= table_views(before_t).push(cell_views(rv)));
        }
        i = i + 1;
    }
    proof {
        reveal_strlit("");
        assert(""@ =~= Seq::<char>::empty());
        assert(views(before@) =~= seq!["Sales for parcel "@ + pcn@, seq![]]);
    }
    Screen { before, table, after }
}

/// The tax table's row for one year.
pub open spec fn tax_row(y: TaxYear) -> Seq<(Seq<char>, Seq<char>)> {
    seq![
        ("year"@, y.tax_year@),
        ("market"@, money_or_dash(y.market_total)),
        ("assessed"@, money_or_dash(y.assessed)),
        ("exempt"@, money_or_dash(y.exemption)),
        ("taxable"@, money_or_dash(y.taxable)),
        ("total_tax"@, money_or_dash(y.total_tax)),
    ]
}

/// A value, or the dash when it is absent.
pub open spec fn or_dash_absent(v: Option<Seq<char>>) -> Seq<char> {
    match v {
        Some(s) => s,
        None => dash(),
    }
}

/// One line of the list of exemptions on file.
pub open spec fn exemption_line(e: Exemption) -> Seq<char> {
    "  "@ + or_dash_absent(opt_view(e.tax_year)) + "  "@ + pad_right(e.description@, 24) + " "@
        + or_dash_absent(opt_view(e.applicant))
}

fn value_or_dash(v: &Option<String>) -> (r: Vec<char>)
    ensures
        r@ == or_dash_absent(opt_view(*v)),
{
    match v {
        Some(x) => chars_of(x.as_str()),
        None => chars_of("—"),
    }
}

fn exemption_text(e: &Exemption) -> (r: String)
    ensures
        r@ == exemption_line(*e),
{
    let mut v = chars_of("  ");
    let mut y = value_or_dash(&e.tax_year);
    v.append(&mut y);
    let mut gap = chars_of("  ");
    v.append(&mut gap);
    let d = chars_of(e.description.as_str());
    let mut padded = pad_right_chars(&d, 24);
    v.append(&mut padded);
    v.push(' ');
    let mut who = value_or_dash(&e.applicant);
    v.append(&mut who);
    proof {
        reveal_strlit(" ");
        assert(v@ =~= exemption_line(*e));
    }
    string_of(&v)
}

/// A value and tax history as text: a heading and a row per year, then the
/// exemptions on file; or a plain sentence when there is no year.
pub fn render_taxes(pcn: &str, years: &[TaxYear], exemptions: &[Exemption]) -> (r: Screen)
    ensures
        years@.len() == 0 ==> views(r.before@) == seq![
            "No tax history for parcel "@ + pcn@ + "."@,
        ] && r.table@.len() == 0 && r.after@.len() == 0,
        years@.len() > 0 ==> views(r.before@) == seq![
            "Value and tax history for parcel "@ + pcn@,
            seq![],
        ] && table_views(r.table@) == Seq::new(years@.len(), |i: int| tax_row(years@[i]))
            && views(r.after@) == (if exemptions@.len() > 0 {
            seq![seq![], "Exemptions on file:"@] + Seq::new(
                exemptions@.len(),
                |i: int| exemption_line(exemptions@[i]),
            )
        } else {
            seq![]
        }),
{
    let mut before: Vec<String> = Vec::new();
    let mut table: Vec<Vec<Cell>> = Vec::new();
    let mut after: Vec<String> = Vec::new();
    if years.len() == 0 {
        let mut v = chars_of("No tax history for parcel ");
        let mut pc = chars_of(pcn);
        v.append(&mut pc);
        let mut dot = chars_of(".");
        v.append(&mut dot);
        add_line(&mut before, string_of(&v));
        proof {
            assert(views(before@) =~= seq!["No tax history for parcel "@ + pcn@ + "."@]);
        }
        return Screen { before, table, after };
    }
    add_line(&mut before, cat("Value and tax history for parcel ", pcn));
    add_line(&mut before, lit(""));
    let mut i: usize = 0;
    while i < years.len()
        invariant
            i <= years@.len(),
            table_views(table@) =~= Seq::new(i as nat, |k: int| tax_row(years@[k])),
        decreases years.len() - i,
    {
        let y = &years[i];
        let mut row: Vec<Cell> = Vec::new();
        row.push(cell("year", y.tax_year.clone()));
        row.push(cell("market", money_str(opt_money(&y.market_total))));
        row.push(cell("assessed", money_str(opt_money(&y.assessed))));
        row.push(cell("exempt", money_str(opt_money(&y.exemption))));
        row.push(cell("taxable", money_str(opt_money(&y.taxable))));
        row.push(cell("total_tax", money_str(opt_money(&y.total_tax))));
        proof {
            assert(cell_views(row@) =~= tax_row(years@[i as int]));
        }
        let ghost before_t = table@;
        let ghost rv = row@;
        table.push(row);
        proof {
            assert(table_views(table@) =~= table_views(before_t).push(cell_views(rv)));
        }
        i = i + 1;
    }
    if exemptions.len() > 0 {
        add_line(&mut after, lit(""));
        add_line(&mut after, lit("Exemptions on file:"));
        let ghost start = views(after@);
        let mut j: usize = 0;
        while j < exemptions.len()
            invariant
                j <= exemptions@.len(),
                views(after@) =~= start + Seq::new(j as nat, |k: int| exemption_line(exemptions@[k])),
            decreases exemptions.len() - j,
        {
            add_line(&mut after, exemption_text(&exemptions[j]));
            j = j + 1;
        }
    }
    proof {
        reveal_strlit("");
        assert(""@ =~= Seq::<char>::empty());
        assert(views(before@) =~= seq!["Value and tax history for parcel "@ + pcn@, seq![]]);
        assert(views(after@) =~= (if exemptions@.len() > 0 {
            seq![seq![], "Exemptions on file:"@] + Seq::new(
                exemptions@.len(),
                |i: int| exemption_line(exemptions@[i]),
            )
        } else {
            seq![]
        }));
    }
    Screen { before, table, after }
}

/// A building as text, with its structural elements; or a plain sentence
/// when the parcel has none.
pub fn render_building(pcn: &str, building: Option<&Building>) -> (r: Vec<String>)
    ensures
        building is None ==> views(r@) == seq![
            "No building on record for parcel "@ + pcn@ + " (vacant land?)."@,
        ],
        building matches Some(b) ==> views(r@) == seq!["Building for parcel "@ + pcn@]
            + building_block_lines(*b, true),
{
    let mut lines: Vec<String> = Vec::new();
    match building {
        None => {
            let mut v = chars_of("No building on record for parcel ");
            let mut pc = chars_of(pcn);
            v.append(&mut pc);
            let mut tail = chars_of(" (vacant land?).");
            v.append(&mut tail);
            add_line(&mut lines, string_of(&v));
            proof {
                assert(views(lines@) =~= seq![
                    "No building on record for parcel "@ + pcn@ + " (vacant land?)."@,
                ]);
            }
        },
        Some(b) => {
            add_line(&mut lines, cat("Building for parcel ", pcn));
            add_all(&mut lines, building_block(b, true));
            proof {
                assert(views(lines@) =~= seq!["Building for parcel "@ + pcn@] + building_block_lines(
                    *b,
                    true,
                ));
            }
        },
    }
    lines
}

/// A parcel's sale history as a schema-tagged document (`sale-list/v1`).
#[derive(Debug)]
pub struct SaleList {
    pub schema: String,
    pub pcn: String,
    pub items: Vec<Sale>,
}

pub fn sale_list(pcn: &str, items: Vec<Sale>) -> (r: SaleList)
    ensures
        r.schema@ == "sale-list/v1"@,
        r.pcn@ == pcn@,
        r.items@ == items@,
{
    SaleList { schema: lit("sale-list/v1"), pcn: lit(pcn), items }
}

/// A parcel's value and tax history, with its exemptions on file, as a
/// schema-tagged document (`tax-history/v1`).
#[derive(Debug)]
pub struct TaxHistory {
    pub schema: String,
    pub pcn: String,
    pub items: Vec<TaxYear>,
    pub exemptions: Vec<Exemption>,
}

pub fn tax_history(pcn: &str, items: Vec<TaxYear>, exemptions: Vec<Exemption>) -> (r: TaxHistory)
    ensures
        r.schema@ == "tax-history/v1"@,
        r.pcn@ == pcn@,
        r.items@ == items@,
        r.exemptions@ == exemptions@,
{
    TaxHistory { schema: lit("tax-history/v1"), pcn: lit(pcn), items, exemptions }
}

/// A parcel's building as a schema-tagged document (`building/v1`); a
/// parcel without one (vacant land) still gets a document, with no
/// building in it.
#[derive(Debug)]
pub struct BuildingDoc {
    pub schema: String,
    pub pcn: String,
    pub building: Option<Building>,
}

pub fn building_doc(pcn: &str, building: Option<Building>) -> (r: BuildingDoc)
    ensures
        r.schema@ == "building/v1"@,
        r.pcn@ == pcn@,
        r.building == building,
{
    BuildingDoc { schema: lit("building/v1"), pcn: lit(pcn), building }
}


/// The value of the first cell of `row` in the column named `name`.
pub open spec fn cell_named(row: Seq<(Seq<char>, Seq<char>)>, name: Seq<char>) -> Option<Seq<char>>
    decreases row.len(),
{
    if row.len() == 0 {
        None
    } else if row[0].0 == name {
        Some(row[0].1)
    } else {
        cell_named(row.drop_first(), name)
    }
}

/// The column named `name` is found at its first occurrence.
pub proof fn lemma_cell_named_at(row: Seq<(Seq<char>, Seq<char>)>, i: int, name: Seq<char>)
    requires
        0 <= i < row.len(),
        row[i].0 == name,
        forall|j: int| 0 <= j < i ==> (#[trigger] row[j]).0 != name,
    ensures
        cell_named(row, name) == Some(row[i].1),
    decreases i,
{
    if i > 0 {
        assert(row[0].0 != name);
        lemma_cell_named_at(row.drop_first(), i - 1, name);
        assert forall|j: int| 0 <= j < i - 1 implies (#[trigger] row.drop_first()[j]).0 != name by {
            assert(row.drop_first()[j] == row[j + 1]);
        }
    }
}

/// How an optional amount of money reads: `$1,234.50`, or a dash.
pub open spec fn shown_money(m: Option<Money>) -> Seq<char> {
    match m {
        Some(x) => money_text(x.amount@),
        None => "—"@,
    }
}

/// How an optional piece of text reads: itself, or a dash when absent or
/// blank.
pub open spec fn shown_text(t: Option<String>) -> Seq<char> {
    match t {
        Some(x) => if trim(x@).len() == 0 {
            "—"@
        } else {
            x@
        },
        None => "—"@,
    }
}

/// Each column of a tax-table row shows that year's own field: `year` its
/// tax year, `market` its total market value, `assessed` its assessed
/// value, `exempt` its exemption amount, `taxable` its taxable value, and
/// `total_tax` its total tax.
pub proof fn lemma_tax_row_columns(y: TaxYear)
    ensures
        cell_named(tax_row(y), "year"@) == Some(y.tax_year@),
        cell_named(tax_row(y), "market"@) == Some(shown_money(y.market_total)),
        cell_named(tax_row(y), "assessed"@) == Some(shown_money(y.assessed)),
        cell_named(tax_row(y), "exempt"@) == Some(shown_money(y.exemption)),
        cell_named(tax_row(y), "taxable"@) == Some(shown_money(y.taxable)),
        cell_named(tax_row(y), "total_tax"@) == Some(shown_money(y.total_tax)),
        tax_row(y).len() == 6,
{
    reveal_strlit("year");
    reveal_strlit("market");
    reveal_strlit("assessed");
    reveal_strlit("exempt");
    reveal_strlit("taxable");
    reveal_strlit("total_tax");
    reveal_strlit("—");
    let r = tax_row(y);
    assert forall|j: int| 0 <= j < 0 implies (#[trigger] r[j]).0 != "year"@ by {
        assert(r[j].0.len() != "year"@.len() || r[j].0[0] != "year"@[0]);
    }
    lemma_cell_named_at(r, 0, "year"@);
    assert forall|j: int| 0 <= j < 1 implies (#[trigger] r[j]).0 != "market"@ by {
        assert(r[j].0.len() != "market"@.len() || r[j].0[0] != "market"@[0]);
    }
    lemma_cell_named_at(r, 1, "market"@);
    assert forall|j: int| 0 <= j < 2 implies (#[trigger] r[j]).0 != "assessed"@ by {
        assert(r[j].0.len() != "assessed"@.len() || r[j].0[0] != "assessed"@[0]);
    }
    lemma_cell_named_at(r, 2, "assessed"@);
    assert forall|j: int| 0 <= j < 3 implies (#[trigger] r[j]).0 != "exempt"@ by {
        assert(r[j].0.len() != "exempt"@.len() || r[j].0[0] != "exempt"@[0]);
    }
    lemma_cell_named_at(r, 3, "exempt"@);
    assert forall|j: int| 0 <= j < 4 implies (#[trigger] r[j]).0 != "taxable"@ by {
        assert(r[j].0.len() != "taxable"@.len() || r[j].0[0] != "taxable"@[0]);
    }
    lemma_cell_named_at(r, 4, "taxable"@);
    assert forall|j: int| 0 <= j < 5 implies (#[trigger] r[j]).0 != "total_tax"@ by {
        assert(r[j].0.len() != "total_tax"@.len() || r[j].0[0] != "total_tax"@[0]);
    }
    lemma_cell_named_at(r, 5, "total_tax"@);
}

/// Each column of a sales-table row shows that sale's own field: `date` its
/// date, `price` its price, `type` its deed type, `book_page` its book then
/// its page, `owner` its buyer.
pub proof fn lemma_sale_row_columns(s: Sale)
    ensures
        cell_named(sale_row(s), "date"@) == Some(shown_text(s.date)),
        cell_named(sale_row(s), "price"@) == Some(shown_money(s.price)),
        cell_named(sale_row(s), "type"@) == Some(shown_text(s.instrument)),
        cell_named(sale_row(s), "book_page"@) == Some(
            match (s.book, s.page) {
                (Some(b), Some(pg)) => b@ + seq!['/'] + pg@,
                _ => "—"@,
            },
        ),
        cell_named(sale_row(s), "owner"@) == Some(shown_text(s.owner)),
        sale_row(s).len() == 5,
{
    reveal_strlit("date");
    reveal_strlit("price");
    reveal_strlit("type");
    reveal_strlit("book_page");
    reveal_strlit("owner");
    reveal_strlit("—");
    let r = sale_row(s);
    assert forall|j: int| 0 <= j < 0 implies (#[trigger] r[j]).0 != "date"@ by {
        assert(r[j].0.len() != "date"@.len() || r[j].0[0] != "date"@[0]);
    }
    lemma_cell_named_at(r, 0, "date"@);
    assert forall|j: int| 0 <= j < 1 implies (#[trigger] r[j]).0 != "price"@ by {
        assert(r[j].0.len() != "price"@.len() || r[j].0[0] != "price"@[0]);
    }
    lemma_cell_named_at(r, 1, "price"@);
    assert forall|j: int| 0 <= j < 2 implies (#[trigger] r[j]).0 != "type"@ by {
        assert(r[j].0.len() != "type"@.len() || r[j].0[0] != "type"@[0]);
    }
    lemma_cell_named_at(r, 2, "type"@);
    assert forall|j: int| 0 <= j < 3 implies (#[trigger] r[j]).0 != "book_page"@ by {
        assert(r[j].0.len() != "book_page"@.len() || r[j].0[0] != "book_page"@[0]);
    }
    lemma_cell_named_at(r, 3, "book_page"@);
    assert forall|j: int| 0 <= j < 4 implies (#[trigger] r[j]).0 != "owner"@ by {
        assert(r[j].0.len() != "owner"@.len() || r[j].0[0] != "owner"@[0]);
    }
    lemma_cell_named_at(r, 4, "owner"@);
    reveal_strlit("/");
}

/// Each column of a search-table row shows that parcel's own field: `pcn`
/// its PCN, `owner` its owner line, `situs` its situs address,
/// `municipality` its municipality, `market` its market value.
pub proof fn lemma_search_row_columns(p: crate::model::ParcelSummary)
    ensures
        cell_named(search_row(p), "pcn"@) == Some(p.pcn@),
        cell_named(search_row(p), "owner"@) == Some(shown_text(p.owner)),
        cell_named(search_row(p), "situs"@) == Some(shown_text(p.situs_address)),
        cell_named(search_row(p), "municipality"@) == Some(shown_text(p.municipality)),
        cell_named(search_row(p), "market"@) == Some(shown_money(p.market_value)),
        search_row(p).len() == 5,
{
    reveal_strlit("pcn");
    reveal_strlit("owner");
    reveal_strlit("situs");
    reveal_strlit("municipality");
    reveal_strlit("market");
    reveal_strlit("—");
    let r = search_row(p);
    assert forall|j: int| 0 <= j < 0 implies (#[trigger] r[j]).0 != "pcn"@ by {
        assert(r[j].0.len() != "pcn"@.len() || r[j].0[0] != "pcn"@[0]);
    }
    lemma_cell_named_at(r, 0, "pcn"@);
    assert forall|j: int| 0 <= j < 1 implies (#[trigger] r[j]).0 != "owner"@ by {
        assert(r[j].0.len() != "owner"@.len() || r[j].0[0] != "owner"@[0]);
    }
    lemma_cell_named_at(r, 1, "owner"@);
    assert forall|j: int| 0 <= j < 2 implies (#[trigger] r[j]).0 != "situs"@ by {
        assert(r[j].0.len() != "situs"@.len() || r[j].0[0] != "situs"@[0]);
    }
    lemma_cell_named_at(r, 2, "situs"@);
    assert forall|j: int| 0 <= j < 3 implies (#[trigger] r[j]).0 != "municipality"@ by {
        assert(r[j].0.len() != "municipality"@.len() || r[j].0[0] != "municipality"@[0]);
    }
    lemma_cell_named_at(r, 3, "municipality"@);
    assert forall|j: int| 0 <= j < 4 implies (#[trigger] r[j]).0 != "market"@ by {
        assert(r[j].0.len() != "market"@.len() || r[j].0[0] != "market"@[0]);
    }
    lemma_cell_named_at(r, 4, "market"@);
}


/// A parcel's text shows its six values on consecutive lines, each under its
/// own label with that value's own amount: total market value, land,
/// improvement, assessed value, exemptions and taxable value. A homestead
/// parcel's text says so.
pub proof fn lemma_parcel_shows_its_values(p: Parcel)
    ensures
        exists|k: int|
            #![trigger parcel_text(p)[k]]
            0 <= k && k + 6 <= parcel_text(p).len() && parcel_text(p)[k]
                == "    Market (total):     "@ + shown_money(p.values.market_total)
                && parcel_text(p)[k + 1] == "      land:             "@ + shown_money(
                p.values.market_land,
            ) && parcel_text(p)[k + 2] == "      improvement:      "@ + shown_money(
                p.values.market_improvement,
            ) && parcel_text(p)[k + 3] == "    Assessed:           "@ + shown_money(
                p.values.assessed,
            ) && parcel_text(p)[k + 4] == "    Exemptions:         "@ + shown_money(
                p.values.exemption,
            ) && parcel_text(p)[k + 5] == "    Taxable:            "@ + shown_money(
                p.values.taxable,
            ),
        p.values.homestead == Some(true) ==> exists|k: int|
            #![trigger parcel_text(p)[k]]
            0 <= k < parcel_text(p).len() && parcel_text(p)[k] == "    Homestead:          yes"@,
{
    reveal_strlit("—");
    let t = parcel_text(p);
    let h = parcel_head(p);
    let v = values_block(p.values);
    let k: int = h.len() as int + 2;
    assert(t[k] == v[2]);
    assert(t[k + 1] == v[3]);
    assert(t[k + 2] == v[4]);
    assert(t[k + 3] == v[5]);
    assert(t[k + 4] == v[6]);
    assert(t[k + 5] == v[7]);
    if p.values.homestead == Some(true) {
        assert(t[h.len() as int + 8] == v[8]);
    }
}

proof fn lemma_in_concat(a: Seq<Seq<char>>, b: Seq<Seq<char>>, x: Seq<char>)
    ensures
        a.contains(x) ==> (a + b).contains(x),
        b.contains(x) ==> (a + b).contains(x),
{
    if a.contains(x) {
        let k = choose|k: int| 0 <= k < a.len() && a[k] == x;
        assert((a + b)[k] == x);
    }
    if b.contains(x) {
        let k = choose|k: int| 0 <= k < b.len() && b[k] == x;
        assert((a + b)[a.len() + k] == x);
    }
}

proof fn lemma_head_shows(p: Parcel)
    ensures
        parcel_head(p).contains(
            "  Owner:        "@ + if p.owners@.len() > 0 {
                shown_text(Some(p.owners@[0]))
            } else {
                "—"@
            },
        ),
        parcel_head(p).contains("  Situs:        "@ + shown_text(p.situs_address)),
        p.municipality matches Some(m) ==> parcel_head(p).contains("  Municipality: "@ + m@),
{
    reveal_strlit("—");
    let h = parcel_head(p);
    let conf: int = if p.confidential {
        1
    } else {
        0
    };
    let extra: int = if p.owners@.len() > 0 {
        p.owners@.len() - 1
    } else {
        0
    };
    assert(h[1 + conf] == "  Owner:        "@ + or_dash_text(first_owner(p.owners@)));
    assert(h[2 + conf + extra] == "  Situs:        "@ + or_dash_text(opt_view(p.situs_address)));
    if p.municipality is Some {
        assert(h[3 + conf + extra] == "  Municipality: "@ + opt_view(p.municipality)->Some_0);
    }
}

proof fn lemma_sale_block_shows(s: Sale)
    ensures
        sale_block(Some(s)).contains("    Date:               "@ + shown_text(s.date)),
        sale_block(Some(s)).contains("    Price:              "@ + shown_money(s.price)),
        match (s.book, s.page) {
            (Some(b), Some(pg)) => sale_block(Some(s)).contains(
                "    OR book/page:       "@ + b@ + " / "@ + pg@,
            ),
            _ => true,
        },
        s.instrument matches Some(i) ==> sale_block(Some(s)).contains(
            "    Instrument:         "@ + i@,
        ),
{
    reveal_strlit("—");
    let sb = sale_block(Some(s));
    assert(sb[2] == "    Date:               "@ + shown_text(s.date));
    assert(sb[3] == "    Price:              "@ + shown_money(s.price));
    let bp: int = match (s.book, s.page) {
        (Some(_), Some(_)) => 1,
        _ => 0,
    };
    match (s.book, s.page) {
        (Some(b), Some(pg)) => {
            let line = "    OR book/page:       "@ + b@ + " / "@ + pg@;
            assert(sb[4] == line);
            assert(sb.contains(line));
        },
        _ => {},
    }
    if s.instrument is Some {
        assert(sb[4 + bp] == "    Instrument:         "@ + s.instrument->Some_0@);
    }
}

proof fn lemma_building_block_shows(b: Building, full: bool)
    ensures
        b.year_built matches Some(y) ==> building_block_lines(b, full).contains(
            "    Year built:         "@ + dec(y as nat),
        ),
        b.living_area_sqft matches Some(a) ==> building_block_lines(b, full).contains(
            "    Living area:        "@ + dec(a as nat) + " sq ft (heated/cooled)"@,
        ),
        b.total_sqft matches Some(a) ==> building_block_lines(b, full).contains(
            "    Total under roof:   "@ + dec(a as nat) + " sq ft"@,
        ),
{
    let bb = building_block_lines(b, full);
    let yl: int = if b.year_built is Some {
        1
    } else {
        0
    };
    let ll: int = if b.living_area_sqft is Some {
        1
    } else {
        0
    };
    if b.year_built is Some {
        assert(bb[1] == "    Year built:         "@ + dec(b.year_built->Some_0 as nat));
    }
    if b.living_area_sqft is Some {
        assert(bb[1 + yl] == "    Living area:        "@ + dec(b.living_area_sqft->Some_0 as nat)
            + " sq ft (heated/cooled)"@);
    }
    if b.total_sqft is Some {
        assert(bb[1 + yl + ll] == "    Total under roof:   "@ + dec(b.total_sqft->Some_0 as nat)
            + " sq ft"@);
    }
}

proof fn lemma_property_block_shows(p: Parcel)
    ensures
        p.property_use matches Some(u) ==> property_block(p).contains("    Use code:           "@ + u@),
        p.subdivision matches Some(u) ==> property_block(p).contains("    Subdivision:        "@ + u@),
        p.acres matches Some(u) ==> property_block(p).contains("    Acres:              "@ + u@),
        p.legal_description matches Some(u) ==> property_block(p).contains(
            "    Legal:              "@ + u@,
        ),
        p.coordinates matches Some(u) ==> property_block(p).contains("    Coordinates:        "@ + u@),
{
    let pb = property_block(p);
    let u: int = if p.property_use is Some {
        1
    } else {
        0
    };
    let sd: int = if p.subdivision is Some {
        1
    } else {
        0
    };
    let ac: int = if p.acres is Some {
        1
    } else {
        0
    };
    let lg: int = if p.legal_description is Some {
        1
    } else {
        0
    };
    if p.property_use is Some {
        assert(pb[2] == "    Use code:           "@ + p.property_use->Some_0@);
    }
    if p.subdivision is Some {
        assert(pb[2 + u] == "    Subdivision:        "@ + p.subdivision->Some_0@);
    }
    if p.acres is Some {
        assert(pb[2 + u + sd] == "    Acres:              "@ + p.acres->Some_0@);
    }
    if p.legal_description is Some {
        assert(pb[2 + u + sd + ac] == "    Legal:              "@ + p.legal_description->Some_0@);
    }
    if p.coordinates is Some {
        assert(pb[2 + u + sd + ac + lg] == "    Coordinates:        "@ + p.coordinates->Some_0@);
    }
}

proof fn lemma_parcel_text_parts(p: Parcel, x: Seq<char>)
    ensures
        parcel_head(p).contains(x) ==> parcel_text(p).contains(x),
        sale_block(p.last_sale).contains(x) ==> parcel_text(p).contains(x),
        p.building matches Some(b) ==> (building_block_lines(b, false).contains(x)
            ==> parcel_text(p).contains(x)),
        property_block(p).contains(x) ==> parcel_text(p).contains(x),
{
    let h = parcel_head(p);
    let v = values_block(p.values);
    let sb = sale_block(p.last_sale);
    let bb = match p.building {
        Some(b) => seq![seq![]] + building_block_lines(b, false),
        None => Seq::<Seq<char>>::empty(),
    };
    let pb = property_block(p);
    lemma_in_concat(h, v, x);
    lemma_in_concat(h + v, sb, x);
    lemma_in_concat(h + v + sb, bb, x);
    lemma_in_concat(h + v + sb + bb, pb, x);
    match p.building {
        Some(b) => {
            lemma_in_concat(seq![seq![]], building_block_lines(b, false), x);
        },
        None => {},
    }
}

/// A parcel's text shows each of its facts under its own label with that
/// fact's own value: the first owner, the situs address and the
/// municipality; the last sale's date, price, book and page, and deed type;
/// the building's year built, living area and area under roof; and the land
/// use, subdivision, acreage, legal description and coordinates.
pub proof fn lemma_parcel_shows_its_facts(p: Parcel)
    ensures
        parcel_text(p).contains(
            "  Owner:        "@ + if p.owners@.len() > 0 {
                shown_text(Some(p.owners@[0]))
            } else {
                "—"@
            },
        ),
        parcel_text(p).contains("  Situs:        "@ + shown_text(p.situs_address)),
        p.municipality matches Some(m) ==> parcel_text(p).contains("  Municipality: "@ + m@),
        p.last_sale matches Some(s) ==> {
            &&& parcel_text(p).contains("    Date:               "@ + shown_text(s.date))
            &&& parcel_text(p).contains("    Price:              "@ + shown_money(s.price))
            &&& match (s.book, s.page) {
                (Some(b), Some(pg)) => parcel_text(p).contains(
                    "    OR book/page:       "@ + b@ + " / "@ + pg@,
                ),
                _ => true,
            }
            &&& (s.instrument matches Some(i) ==> parcel_text(p).contains(
                "    Instrument:         "@ + i@,
            ))
        },
        p.building matches Some(b) ==> {
            &&& (b.year_built matches Some(y) ==> parcel_text(p).contains(
                "    Year built:         "@ + dec(y as nat),
            ))
            &&& (b.living_area_sqft matches Some(a) ==> parcel_text(p).contains(
                "    Living area:        "@ + dec(a as nat) + " sq ft (heated/cooled)"@,
            ))
            &&& (b.total_sqft matches Some(a) ==> parcel_text(p).contains(
                "    Total under roof:   "@ + dec(a as nat) + " sq ft"@,
            ))
        },
        p.property_use matches Some(u) ==> parcel_text(p).contains("    Use code:           "@ + u@),
        p.subdivision matches Some(u) ==> parcel_text(p).contains("    Subdivision:        "@ + u@),
        p.acres matches Some(u) ==> parcel_text(p).contains("    Acres:              "@ + u@),
        p.legal_description matches Some(u) ==> parcel_text(p).contains(
            "    Legal:              "@ + u@,
        ),
        p.coordinates matches Some(u) ==> parcel_text(p).contains("    Coordinates:        "@ + u@),
{
    reveal_strlit("—");
    lemma_head_shows(p);
    let owner = "  Owner:        "@ + if p.owners@.len() > 0 {
        shown_text(Some(p.owners@[0]))
    } else {
        "—"@
    };
    lemma_parcel_text_parts(p, owner);
    lemma_parcel_text_parts(p, "  Situs:        "@ + shown_text(p.situs_address));
    match p.municipality {
        Some(m) => lemma_parcel_text_parts(p, "  Municipality: "@ + m@),
        None => {},
    }
    match p.last_sale {
        Some(s) => {
            lemma_sale_block_shows(s);
            lemma_parcel_text_parts(p, "    Date:               "@ + shown_text(s.date));
            lemma_parcel_text_parts(p, "    Price:              "@ + shown_money(s.price));
            match (s.book, s.page) {
                (Some(b), Some(pg)) => lemma_parcel_text_parts(
                    p,
                    "    OR book/page:       "@ + b@ + " / "@ + pg@,
                ),
                _ => {},
            }
            match s.instrument {
                Some(i) => lemma_parcel_text_parts(p, "    Instrument:         "@ + i@),
                None => {},
            }
        },
        None => {},
    }
    match p.building {
        Some(b) => {
            lemma_building_block_shows(b, false);
            match b.year_built {
                Some(y) => lemma_parcel_text_parts(p, "    Year built:         "@ + dec(y as nat)),
                None => {},
            }
            match b.living_area_sqft {
                Some(a) => lemma_parcel_text_parts(
                    p,
                    "    Living area:        "@ + dec(a as nat) + " sq ft (heated/cooled)"@,
                ),
                None => {},
            }
            match b.total_sqft {
                Some(a) => lemma_parcel_text_parts(
                    p,
                    "    Total under roof:   "@ + dec(a as nat) + " sq ft"@,
                ),
                None => {},
            }
        },
        None => {},
    }
    lemma_property_block_shows(p);
    match p.property_use {
        Some(u) => lemma_parcel_text_parts(p, "    Use code:           "@ + u@),
        None => {},
    }
    match p.subdivision {
        Some(u) => lemma_parcel_text_parts(p, "    Subdivision:        "@ + u@),
        None => {},
    }
    match p.acres {
        Some(u) => lemma_parcel_text_parts(p, "    Acres:              "@ + u@),
        None => {},
    }
    match p.legal_description {
        Some(u) => lemma_parcel_text_parts(p, "    Legal:              "@ + u@),
        None => {},
    }
    match p.coordinates {
        Some(u) => lemma_parcel_text_parts(p, "    Coordinates:        "@ + u@),
        None => {},
    }
}

/// An exemption's line in the taxes text shows its own tax year, then its
/// description padded to 24 characters, then its applicant; a dash stands
/// for a year or applicant that is absent.
pub proof fn lemma_exemption_line_fields(e: Exemption)
    ensures
        exemption_line(e) == "  "@ + match e.tax_year {
            Some(y) => y@,
            None => "—"@,
        } + "  "@ + pad_right(e.description@, 24) + " "@ + match e.applicant {
            Some(a) => a@,
            None => "—"@,
        },
{
    reveal_strlit("—");
}
} // verus!
