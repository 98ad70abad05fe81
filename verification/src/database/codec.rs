//! The on-disk text encoding of a table: one header line of
//! `name: TYPE` pairs, then one comma-space-separated line per row, and a
//! trailing blank line.  `render_table` and `parse_table_text` are the
//! specification; the table's `to_file_string` and `load_table` compute
//! exactly what they say.

use crate::database::column_file_chars;
use crate::database::errors::DBError;
use crate::database::field_file_chars;
use crate::database::table::field_matches;
use crate::database::table::row_matches_header;
use crate::database::table::wf_table;
use crate::database::table::Table;
use crate::database::ColumnV;
use crate::database::DBColumn;
use crate::database::DBField;
use crate::database::DataTypes;
use crate::database::FieldV;
use crate::strutil::chars_eq;
use crate::strutil::chars_to_string;
use crate::strutil::find_char;
use crate::strutil::find_char_exec;
use crate::strutil::join_with;
use crate::strutil::lemma_join_push;
use crate::strutil::parse_i32_chars;
use crate::strutil::parse_i32_val;
use crate::strutil::push_char;
use crate::strutil::slice_range_to_vec;
use crate::strutil::split_on;
use crate::strutil::split_slice;
use crate::strutil::str_to_chars;
use crate::strutil::trim_chars;
use crate::strutil::trim_slice;
use vstd::prelude::*;

verus! {

// ---------------------------------------------------------------------------
// Rendering
// ---------------------------------------------------------------------------

/// The header line: `name: TYPE` pairs joined with comma-space.
pub open spec fn render_header_line(header: Seq<ColumnV>) -> Seq<char> {
    join_with(header.map(|i: int, c: ColumnV| column_file_chars(c)), seq![',', ' '])
}

/// One row line: the rendered fields joined with comma-space.
pub open spec fn render_row_line(row: Seq<FieldV>) -> Seq<char> {
    join_with(row.map(|i: int, f: FieldV| field_file_chars(f)), seq![',', ' '])
}

/// All row lines, each followed by a newline.
pub open spec fn render_rows(entries: Seq<Seq<FieldV>>) -> Seq<char>
    decreases entries.len(),
{
    if entries.len() == 0 {
        Seq::empty()
    } else {
        render_row_line(entries[0]) + seq!['\n'] + render_rows(entries.skip(1))
    }
}

/// The whole file: header line, row lines, and a trailing blank line.
pub open spec fn render_table(header: Seq<ColumnV>, entries: Seq<Seq<FieldV>>) -> Seq<char> {
    render_header_line(header) + seq!['\n'] + render_rows(entries) + seq!['\n']
}

// ---------------------------------------------------------------------------
// Parsing
// ---------------------------------------------------------------------------

/// The declared type a trimmed header token denotes.
pub open spec fn parse_dtype(s: Seq<char>) -> Option<DataTypes> {
    if s == seq!['T', 'E', 'X', 'T'] {
        Some(DataTypes::TEXT)
    } else if s == seq!['I', 'N', 'T'] {
        Some(DataTypes::INT)
    } else {
        None
    }
}

/// One header piece: the name before the first colon and the type after
/// it, both trimmed.
pub open spec fn parse_col(piece: Seq<char>) -> Option<ColumnV> {
    match find_char(piece, ':') {
        None => None,
        Some(ci) => {
            let name = trim_chars(piece.take(ci));
            let ty = trim_chars(piece.skip(ci + 1));
            match parse_dtype(ty) {
                Some(dt) => Some(ColumnV { dt_type: dt, name }),
                None => None,
            }
        },
    }
}

/// All header pieces, in order.
pub open spec fn parse_header_pieces(pieces: Seq<Seq<char>>) -> Option<Seq<ColumnV>>
    decreases pieces.len(),
{
    if pieces.len() == 0 {
        Some(Seq::empty())
    } else {
        match parse_header_pieces(pieces.drop_last()) {
            None => None,
            Some(cols) => match parse_col(pieces.last()) {
                None => None,
                Some(c) => Some(cols.push(c)),
            },
        }
    }
}

/// The header: the first line split on commas.
pub open spec fn parse_header_line(line: Seq<char>) -> Option<Seq<ColumnV>> {
    parse_header_pieces(split_on(line, ','))
}

/// One row piece under its column's declared type: text is trimmed and
/// taken verbatim, integers are trimmed and read in decimal.
pub open spec fn parse_field(piece: Seq<char>, t: DataTypes) -> Option<FieldV> {
    match t {
        DataTypes::TEXT => Some(FieldV::Text(trim_chars(piece))),
        DataTypes::INT => match parse_i32_val(trim_chars(piece)) {
            Some(v) => Some(FieldV::Int(v as int)),
            None => None,
        },
    }
}

/// The fields of one row line, positionally typed by the header; a line
/// wider than the header fails the load.
pub open spec fn parse_row_pieces(pieces: Seq<Seq<char>>, header: Seq<ColumnV>) -> Option<
    Seq<FieldV>,
>
    decreases pieces.len(),
{
    if pieces.len() > header.len() {
        None
    } else if pieces.len() == 0 {
        Some(Seq::empty())
    } else {
        match parse_row_pieces(pieces.drop_last(), header) {
            None => None,
            Some(fs) => match parse_field(pieces.last(), header[pieces.len() - 1].dt_type) {
                None => None,
                Some(f) => Some(fs.push(f)),
            },
        }
    }
}

/// The rows of all lines after the header; a line that splits into at most
/// one piece is a blank separator and is skipped.
pub open spec fn parse_row_lines(lines: Seq<Seq<char>>, header: Seq<ColumnV>) -> Option<
    Seq<Seq<FieldV>>,
>
    decreases lines.len(),
{
    if lines.len() == 0 {
        Some(Seq::empty())
    } else {
        match parse_row_lines(lines.drop_last(), header) {
            None => None,
            Some(rows) => {
                let pieces = split_on(lines.last(), ',');
                if pieces.len() <= 1 {
                    Some(rows)
                } else {
                    match parse_row_pieces(pieces, header) {
                        None => None,
                        Some(row) => Some(rows.push(row)),
                    }
                }
            },
        }
    }
}

/// The whole file: the first line as the header, every later line as a
/// row.
pub open spec fn parse_table_text(s: Seq<char>) -> Option<(Seq<ColumnV>, Seq<Seq<FieldV>>)> {
    let lines = split_on(s, '\n');
    match parse_header_line(lines[0]) {
        None => None,
        Some(header) => match parse_row_lines(lines.skip(1), header) {
            None => None,
            Some(rows) => Some((header, rows)),
        },
    }
}

// ---------------------------------------------------------------------------
// Helper lemmas for the executable codec
// ---------------------------------------------------------------------------

proof fn lemma_header_pieces_none_extend(pieces: Seq<Seq<char>>, m: int)
    requires
        0 <= m <= pieces.len(),
        parse_header_pieces(pieces.take(m)) is None,
    ensures
        parse_header_pieces(pieces) is None,
    decreases pieces.len() - m,
{
    if m < pieces.len() {
        assert(pieces.take(m + 1).drop_last() =~= pieces.take(m));
        lemma_header_pieces_none_extend(pieces, m + 1);
    } else {
        assert(pieces.take(m) =~= pieces);
    }
}

proof fn lemma_row_pieces_none_extend(pieces: Seq<Seq<char>>, header: Seq<ColumnV>, m: int)
    requires
        0 <= m <= pieces.len(),
        pieces.len() <= header.len(),
        parse_row_pieces(pieces.take(m), header) is None,
    ensures
        parse_row_pieces(pieces, header) is None,
    decreases pieces.len() - m,
{
    if m < pieces.len() {
        assert(pieces.take(m + 1).drop_last() =~= pieces.take(m));
        assert(pieces.take(m + 1).len() <= header.len());
        lemma_row_pieces_none_extend(pieces, header, m + 1);
    } else {
        assert(pieces.take(m) =~= pieces);
    }
}

proof fn lemma_row_lines_none_extend(lines: Seq<Seq<char>>, header: Seq<ColumnV>, m: int)
    requires
        0 <= m <= lines.len(),
        parse_row_lines(lines.take(m), header) is None,
    ensures
        parse_row_lines(lines, header) is None,
    decreases lines.len() - m,
{
    if m < lines.len() {
        assert(lines.take(m + 1).drop_last() =~= lines.take(m));
        lemma_row_lines_none_extend(lines, header, m + 1);
    } else {
        assert(lines.take(m) =~= lines);
    }
}

/// Splitting never yields an empty piece list.
pub proof fn lemma_split_on_min_len(s: Seq<char>, c: char)
    ensures
        split_on(s, c).len() >= 1,
    decreases s.len(),
{
    crate::strutil::lemma_find_char_props(s, c);
}

// ---------------------------------------------------------------------------
// The executable codec
// ---------------------------------------------------------------------------

/// Parses one header piece: `name: TYPE`.
fn parse_col_exec(piece: &Vec<char>) -> (r: Option<DBColumn>)
    ensures
        match r {
            Some(col) => parse_col(piece@) == Some(col@),
            None => parse_col(piece@) is None,
        },
{
    let ci = match find_char_exec(piece.as_slice(), ':') {
        Some(ci) => ci,
        None => {
            return None;
        },
    };
    proof {
        assert(ci < piece.len());
    }
    let name_part = slice_range_to_vec(piece.as_slice(), 0, ci);
    let name = trim_slice(name_part.as_slice());
    let ty_part = slice_range_to_vec(piece.as_slice(), ci + 1, piece.len());
    let ty = trim_slice(ty_part.as_slice());
    proof {
        assert(piece@.take(ci as int) == name_part@);
        assert(piece@.skip(ci + 1) == ty_part@);
    }
    let text_chars: Vec<char> = vec!['T', 'E', 'X', 'T'];
    let int_chars_v: Vec<char> = vec!['I', 'N', 'T'];
    let dt: DataTypes = if chars_eq(&ty, &text_chars) {
        proof {
            assert(ty@ == seq!['T', 'E', 'X', 'T']);
        }
        DataTypes::TEXT
    } else if chars_eq(&ty, &int_chars_v) {
        proof {
            assert(ty@ == seq!['I', 'N', 'T']);
            assert(ty@ != seq!['T', 'E', 'X', 'T']);
        }
        DataTypes::INT
    } else {
        proof {
            assert(parse_dtype(trim_chars(piece@.skip(ci + 1))) is None);
        }
        return None;
    };
    Some(DBColumn { dt_type: dt, name: chars_to_string(name.as_slice()) })
}

impl Table {
    /// Renders the table in its file format: header line, row lines, and a
    /// trailing blank line.
    pub fn to_file_string(&self) -> (s: String)
        ensures
            s@ == render_table(self@.header, self@.entries),
    {
        let ghost hv = self@.header;
        let ghost ev = self@.entries;
        let mut out = String::new();
        // header line
        let ghost hmap = hv.map(|i: int, c: ColumnV| column_file_chars(c));
        let mut i: usize = 0;
        proof {
            assert(out@ =~= join_with(hmap.take(0), seq![',', ' ']));
        }
        while i < self.header.len()
            invariant
                i <= self.header.len(),
                hv == self@.header,
                hmap == hv.map(|k: int, c: ColumnV| column_file_chars(c)),
                hmap.len() == self.header.len(),
                out@ == join_with(hmap.take(i as int), seq![',', ' ']),
            decreases self.header.len() - i,
        {
            if i > 0 {
                push_char(&mut out, ',');
                push_char(&mut out, ' ');
            }
            let cs = self.header[i].to_file_string();
            out.append(cs.as_str());
            proof {
                assert(self.header@[i as int].deep_view() == hv[i as int]);
                assert(cs@ == hmap[i as int]);
                lemma_join_push(hmap.take(i as int), seq![',', ' '], hmap[i as int]);
                assert(hmap.take(i + 1) =~= hmap.take(i as int).push(hmap[i as int]));
                if i > 0 {
                    assert(out@ =~= join_with(hmap.take(i as int), seq![',', ' ']) + seq![',', ' ']
                        + hmap[i as int]);
                } else {
                    assert(hmap.take(0) =~= Seq::<Seq<char>>::empty());
                    assert(out@ =~= hmap[0]);
                }
            }
            i = i + 1;
        }
        proof {
            assert(hmap.take(self.header.len() as int) =~= hmap);
            assert(out@ == render_header_line(hv));
        }
        push_char(&mut out, '\n');
        // row lines
        let ghost header_part = render_header_line(hv) + seq!['\n'];
        let mut r: usize = 0;
        proof {
            assert(out@ =~= header_part + render_rows_prefix(ev, 0));
        }
        while r < self.entries.len()
            invariant
                r <= self.entries.len(),
                hv == self@.header,
                ev == self@.entries,
                ev.len() == self.entries.len(),
                header_part == render_header_line(hv) + seq!['\n'],
                out@ == header_part + render_rows_prefix(ev, r as int),
            decreases self.entries.len() - r,
        {
            let row = &self.entries[r];
            let ghost rv = ev[r as int];
            proof {
                assert(row.deep_view() == rv);
            }
            let ghost rmap = rv.map(|k: int, f: FieldV| field_file_chars(f));
            let mut line = String::new();
            let mut k: usize = 0;
            proof {
                assert(line@ =~= join_with(rmap.take(0), seq![',', ' ']));
            }
            while k < row.len()
                invariant
                    k <= row.len(),
                    rv == row.deep_view(),
                    rmap == rv.map(|q: int, f: FieldV| field_file_chars(f)),
                    rmap.len() == row.len(),
                    line@ == join_with(rmap.take(k as int), seq![',', ' ']),
                decreases row.len() - k,
            {
                if k > 0 {
                    push_char(&mut line, ',');
                    push_char(&mut line, ' ');
                }
                let fs = row[k].to_file_string();
                line.append(fs.as_str());
                proof {
                    assert(row@[k as int].deep_view() == rv[k as int]);
                    assert(fs@ == rmap[k as int]);
                    lemma_join_push(rmap.take(k as int), seq![',', ' '], rmap[k as int]);
                    assert(rmap.take(k + 1) =~= rmap.take(k as int).push(rmap[k as int]));
                    if k > 0 {
                        assert(line@ =~= join_with(rmap.take(k as int), seq![',', ' ']) + seq![
                            ',',
                            ' ',
                        ] + rmap[k as int]);
                    } else {
                        assert(rmap.take(0) =~= Seq::<Seq<char>>::empty());
                        assert(line@ =~= rmap[0]);
                    }
                }
                k = k + 1;
            }
            proof {
                assert(rmap.take(row.len() as int) =~= rmap);
                assert(line@ == render_row_line(rv));
            }
            out.append(line.as_str());
            push_char(&mut out, '\n');
            proof {
                lemma_render_rows_prefix_step(ev, r as int);
                assert(out@ =~= header_part + render_rows_prefix(ev, r + 1));
            }
            r = r + 1;
        }
        proof {
            lemma_render_rows_prefix_full(ev, self.entries.len() as int);
        }
        push_char(&mut out, '\n');
        proof {
            assert(out@ =~= render_table(hv, ev));
        }
        out
    }

    /// Builds a table from its name and the text of its backing file.
    #[verifier::rlimit(50)]
    pub fn load_table(name: String, contents: &str) -> (r: Result<Table, DBError>)
        ensures
            match r {
                Ok(t) => parse_table_text(contents@) == Some((t@.header, t@.entries)) && t@.name
                    == name@ && wf_table(t@),
                Err(e) => parse_table_text(contents@) is None && e.deep_view()
                    == crate::database::errors::DBErrorV::GenericLoadingError,
            },
    {
        let ghost sv = contents@;
        let chars = str_to_chars(contents);
        let lines = split_slice(chars.as_slice(), '\n');
        let ghost lv = split_on(sv, '\n');
        proof {
            assert(lines.deep_view() == lv);
            lemma_split_on_min_len(sv, '\n');
            assert(lines.len() == lv.len());
        }
        // header
        let hpieces = split_slice(lines[0].as_slice(), ',');
        let ghost hpv = split_on(lv[0], ',');
        proof {
            assert(lines@[0].deep_view() == lv[0]);
            crate::strutil::lemma_char_vec_deep_view(lines@[0]);
            assert(hpieces.deep_view() == hpv);
        }
        let mut header: Vec<DBColumn> = Vec::new();
        let mut i: usize = 0;
        proof {
            assert(hpv.take(0) =~= Seq::<Seq<char>>::empty());
            assert(parse_header_pieces(hpv.take(0)) == Some(header.deep_view()));
        }
        while i < hpieces.len()
            invariant
                i <= hpieces.len(),
                hpv == hpieces.deep_view(),
                hpv.len() == hpieces.len(),
                sv == contents@,
                lv == split_on(sv, '\n'),
                lv.len() >= 1,
                hpv == split_on(lv[0], ','),
                parse_header_pieces(hpv.take(i as int)) == Some(header.deep_view()),
            decreases hpieces.len() - i,
        {
            proof {
                assert(hpv.take(i + 1).drop_last() =~= hpv.take(i as int));
                assert(hpv.take(i + 1).last() == hpv[i as int]);
                assert(hpieces@[i as int].deep_view() == hpv[i as int]);
                crate::strutil::lemma_char_vec_deep_view(hpieces@[i as int]);
                assert(hpieces@[i as int]@ == hpv[i as int]);
            }
            match parse_col_exec(&hpieces[i]) {
                Some(col) => {
                    let ghost h0 = header.deep_view();
                    let ghost cv = col@;
                    header.push(col);
                    proof {
                        assert(header.deep_view() =~~= h0.push(cv));
                    }
                },
                None => {
                    proof {
                        assert(parse_header_pieces(hpv.take(i + 1)) is None);
                        lemma_header_pieces_none_extend(hpv, i + 1);
                        assert(parse_table_text(sv) is None);
                    }
                    return Err(DBError::GenericLoadingError);
                },
            }
            i = i + 1;
        }
        proof {
            assert(hpv.take(hpieces.len() as int) =~= hpv);
            assert(parse_header_line(lv[0]) == Some(header.deep_view()));
        }
        let ghost hv = header.deep_view();
        // rows
        let ghost rl = lv.skip(1);
        let mut entries: Vec<Vec<DBField>> = Vec::new();
        let mut li: usize = 1;
        proof {
            assert(rl.take(0) =~= Seq::<Seq<char>>::empty());
            assert(entries.deep_view() =~= Seq::<Seq<FieldV>>::empty());
            assert(parse_row_lines(rl.take(0), hv) == Some(entries.deep_view()));
        }
        while li < lines.len()
            invariant
                1 <= li <= lines.len(),
                sv == contents@,
                lv == split_on(sv, '\n'),
                lv == lines.deep_view(),
                lv.len() == lines.len(),
                rl == lv.skip(1),
                hv == header.deep_view(),
                hv.len() == header.len(),
                parse_header_line(lv[0]) == Some(hv),
                parse_row_lines(rl.take(li - 1), hv) == Some(entries.deep_view()),
                wf_entries(entries.deep_view(), hv),
            decreases lines.len() - li,
        {
            proof {
                assert(rl.take(li as int).drop_last() =~= rl.take(li - 1));
                assert(rl.take(li as int).last() == rl[li - 1]);
                assert(rl[li - 1] == lv[li as int]);
                assert(lines@[li as int].deep_view() == lv[li as int]);
            }
            let pieces = split_slice(lines[li].as_slice(), ',');
            let ghost pv = split_on(lv[li as int], ',');
            proof {
                crate::strutil::lemma_char_vec_deep_view(lines@[li as int]);
                assert(pieces.deep_view() == pv);
            }
            if pieces.len() <= 1 {
                li = li + 1;
                continue;
            }
            if pieces.len() > header.len() {
                proof {
                    assert(parse_row_pieces(pv, hv) is None);
                    assert(parse_row_lines(rl.take(li as int), hv) is None);
                    lemma_row_lines_none_extend(rl, hv, li as int);
                    assert(parse_table_text(sv) is None);
                }
                return Err(DBError::GenericLoadingError);
            }
            let mut row: Vec<DBField> = Vec::new();
            let mut k: usize = 0;
            proof {
                assert(pv.take(0) =~= Seq::<Seq<char>>::empty());
                assert(row.deep_view() =~= Seq::<FieldV>::empty());
                assert(parse_row_pieces(pv.take(0), hv) == Some(row.deep_view()));
            }
            while k < pieces.len()
                invariant
                    k <= pieces.len(),
                    pieces.len() <= header.len(),
                    pv == pieces.deep_view(),
                    pv.len() == pieces.len(),
                    hv == header.deep_view(),
                    hv.len() == header.len(),
                    row.len() == k,
                    parse_row_pieces(pv.take(k as int), hv) == Some(row.deep_view()),
                    forall|q: int|
                        0 <= q < k ==> field_matches(
                            #[trigger] row.deep_view()[q],
                            hv[q].dt_type,
                        ),
                decreases pieces.len() - k,
            {
                proof {
                    assert(pv.take(k + 1).drop_last() =~= pv.take(k as int));
                    assert(pv.take(k + 1).last() == pv[k as int]);
                    assert(pv.take(k + 1).len() == k + 1);
                    assert(pieces@[k as int].deep_view() == pv[k as int]);
                    crate::strutil::lemma_char_vec_deep_view(pieces@[k as int]);
                    assert(pieces@[k as int]@ == pv[k as int]);
                    assert(header@[k as int].deep_view() == hv[k as int]);
                }
                let trimmed = trim_slice(pieces[k].as_slice());
                let f: DBField = match header[k].dt_type {
                    DataTypes::TEXT => DBField::Text(chars_to_string(trimmed.as_slice())),
                    DataTypes::INT => {
                        match parse_i32_chars(trimmed.as_slice()) {
                            Some(v) => DBField::Int(v),
                            None => {
                                proof {
                                    assert(parse_field(pv[k as int], hv[k as int].dt_type)
                                        is None);
                                    assert(parse_row_pieces(pv.take(k + 1), hv) is None);
                                    lemma_row_pieces_none_extend(pv, hv, k + 1);
                                    assert(parse_row_lines(rl.take(li as int), hv) is None);
                                    lemma_row_lines_none_extend(rl, hv, li as int);
                                    assert(parse_table_text(sv) is None);
                                }
                                return Err(DBError::GenericLoadingError);
                            },
                        }
                    },
                };
                let ghost r0 = row.deep_view();
                let ghost fv = f@;
                proof {
                    assert(parse_field(pv[k as int], hv[k as int].dt_type) == Some(fv));
                    assert(field_matches(fv, hv[k as int].dt_type));
                }
                row.push(f);
                proof {
                    assert(row.deep_view() =~~= r0.push(fv));
                    assert forall|q: int| 0 <= q < k + 1 implies field_matches(
                        #[trigger] row.deep_view()[q],
                        hv[q].dt_type,
                    ) by {
                        if q < k {
                            assert(row.deep_view()[q] == r0[q]);
                        }
                    }
                }
                k = k + 1;
            }
            proof {
                assert(pv.take(pieces.len() as int) =~= pv);
            }
            let ghost e0 = entries.deep_view();
            let ghost rowv = row.deep_view();
            entries.push(row);
            proof {
                assert(entries.deep_view() =~~= e0.push(rowv));
                assert(parse_row_lines(rl.take(li as int), hv) == Some(entries.deep_view()));
                assert(row_matches_header(rowv, hv));
                assert forall|q: int| 0 <= q < entries.deep_view().len() implies row_matches_header(
                    #[trigger] entries.deep_view()[q],
                    hv,
                ) by {
                    if q < e0.len() {
                        assert(entries.deep_view()[q] == e0[q]);
                    }
                }
            }
            li = li + 1;
        }
        proof {
            assert(rl.take(lines.len() - 1) =~= rl);
        }
        let t = Table { name, header, entries };
        proof {
            assert(parse_table_text(sv) == Some((t@.header, t@.entries)));
            assert(wf_table(t@));
        }
        Ok(t)
    }
}

/// Every already-parsed row fits the header.
pub open spec fn wf_entries(entries: Seq<Seq<FieldV>>, header: Seq<ColumnV>) -> bool {
    forall|r: int| 0 <= r < entries.len() ==> row_matches_header(#[trigger] entries[r], header)
}

/// The first `r` row lines of the rendering.
pub open spec fn render_rows_prefix(entries: Seq<Seq<FieldV>>, r: int) -> Seq<char> {
    render_rows(entries.take(r))
}

proof fn lemma_render_rows_snoc(entries: Seq<Seq<FieldV>>)
    requires
        entries.len() >= 1,
    ensures
        render_rows(entries) == render_rows(entries.drop_last()) + render_row_line(entries.last())
            + seq!['\n'],
    decreases entries.len(),
{
    if entries.len() == 1 {
        assert(entries.drop_last() =~= Seq::<Seq<FieldV>>::empty());
        assert(entries.skip(1) =~= Seq::<Seq<FieldV>>::empty());
        assert(render_rows(Seq::<Seq<FieldV>>::empty()) == Seq::<char>::empty());
        assert(render_rows(entries.skip(1)) == Seq::<char>::empty());
        assert(render_rows(entries) == render_row_line(entries[0]) + seq!['\n'] + Seq::<
            char,
        >::empty());
        assert(render_row_line(entries[0]) + seq!['\n'] + Seq::<char>::empty() =~= Seq::<
            char,
        >::empty() + render_row_line(entries.last()) + seq!['\n']);
        assert(Seq::<char>::empty() + render_row_line(entries.last()) + seq!['\n']
            =~= render_rows(entries.drop_last()) + render_row_line(entries.last()) + seq!['\n']);
    } else {
        lemma_render_rows_snoc(entries.skip(1));
        assert(entries.skip(1).drop_last() =~= entries.drop_last().skip(1));
        assert(entries.skip(1).last() == entries.last());
        assert(entries.drop_last()[0] == entries[0]);
        assert(render_rows(entries.drop_last()) == render_row_line(entries[0]) + seq!['\n']
            + render_rows(entries.drop_last().skip(1)));
        assert(render_rows(entries) == render_row_line(entries[0]) + seq!['\n'] + (render_rows(
            entries.drop_last().skip(1),
        ) + render_row_line(entries.last()) + seq!['\n']));
        assert(render_row_line(entries[0]) + seq!['\n'] + (render_rows(entries.drop_last().skip(1))
            + render_row_line(entries.last()) + seq!['\n']) =~= (render_row_line(entries[0])
            + seq!['\n'] + render_rows(entries.drop_last().skip(1))) + render_row_line(
            entries.last(),
        ) + seq!['\n']);
    }
}

proof fn lemma_render_rows_prefix_step(entries: Seq<Seq<FieldV>>, r: int)
    requires
        0 <= r < entries.len(),
    ensures
        render_rows_prefix(entries, r + 1) == render_rows_prefix(entries, r) + render_row_line(
            entries[r],
        ) + seq!['\n'],
{
    lemma_render_rows_snoc(entries.take(r + 1));
    assert(entries.take(r + 1).drop_last() =~= entries.take(r));
    assert(entries.take(r + 1).last() == entries[r]);
}

proof fn lemma_render_rows_prefix_full(entries: Seq<Seq<FieldV>>, n: int)
    requires
        n == entries.len(),
    ensures
        render_rows_prefix(entries, n) == render_rows(entries),
{
    assert(entries.take(n) =~= entries);
}

// ---------------------------------------------------------------------------
// The round trip: a clean table reloads to exactly itself
// ---------------------------------------------------------------------------

/// Text that survives the file format unchanged: no separator characters
/// and no surrounding whitespace.
pub open spec fn clean_text(s: Seq<char>) -> bool {
    !s.contains(',') && !s.contains('\n') && crate::strutil::trim_stable(s)
}

/// A column name additionally may not contain the name/type separator.
pub open spec fn clean_name(s: Seq<char>) -> bool {
    clean_text(s) && !s.contains(':')
}

/// A field value that the format preserves: clean text, or an integer
/// that a 32-bit signed value can hold.
pub open spec fn clean_field(f: FieldV) -> bool {
    match f {
        FieldV::Text(s) => clean_text(s),
        FieldV::Int(v) => -2147483648 <= v <= 2147483647,
    }
}

proof fn lemma_small_seq_no_char(a: Seq<char>, c: char)
    requires
        a.len() <= 4,
        a.len() >= 1 ==> a[0] != c,
        a.len() >= 2 ==> a[1] != c,
        a.len() >= 3 ==> a[2] != c,
        a.len() >= 4 ==> a[3] != c,
    ensures
        !a.contains(c),
{
    if a.contains(c) {
        let k = choose|k: int| 0 <= k < a.len() && a[k] == c;
        assert(k == 0 || k == 1 || k == 2 || k == 3);
    }
}

proof fn lemma_ty_clean(dt: DataTypes)
    ensures
        !dt.spec_file_chars().contains(','),
        !dt.spec_file_chars().contains('\n'),
        !dt.spec_file_chars().contains(':'),
        crate::strutil::trim_stable(dt.spec_file_chars()),
        dt.spec_file_chars().len() >= 3,
{
    let ty = dt.spec_file_chars();
    lemma_small_seq_no_char(ty, ',');
    lemma_small_seq_no_char(ty, '\n');
    lemma_small_seq_no_char(ty, ':');
}

/// A clean column renders to a piece that parses back to it, with or
/// without the leading space the joined line gives later pieces.
proof fn lemma_column_chars_round_trip(c: ColumnV)
    requires
        clean_name(c.name),
    ensures
        !column_file_chars(c).contains('\n'),
        !column_file_chars(c).contains(','),
        parse_col(column_file_chars(c)) == Some(c),
        parse_col(seq![' '] + column_file_chars(c)) == Some(c),
{
    let ty = c.dt_type.spec_file_chars();
    let cc = column_file_chars(c);
    lemma_ty_clean(c.dt_type);
    lemma_small_seq_no_char(seq![':', ' '], '\n');
    lemma_small_seq_no_char(seq![':', ' '], ',');
    crate::strutil::lemma_concat_no_char(c.name, seq![':', ' '], '\n');
    crate::strutil::lemma_concat_no_char(c.name + seq![':', ' '], ty, '\n');
    crate::strutil::lemma_concat_no_char(c.name, seq![':', ' '], ',');
    crate::strutil::lemma_concat_no_char(c.name + seq![':', ' '], ty, ',');
    // plain piece
    assert(cc =~= c.name + seq![':'] + (seq![' '] + ty));
    crate::strutil::lemma_find_prefix(c.name, seq![' '] + ty, ':');
    assert(find_char(cc, ':') == Some(c.name.len() as int));
    assert(cc.take(c.name.len() as int) =~= c.name);
    assert(cc.skip(c.name.len() as int + 1) =~= seq![' '] + ty);
    crate::strutil::lemma_trim_stable(c.name);
    crate::strutil::lemma_trim_ws_prefix(ty, ' ');
    crate::strutil::lemma_trim_stable(ty);
    assert(parse_dtype(ty) == Some(c.dt_type)) by {
        if c.dt_type == DataTypes::INT {
            assert(ty.len() == 3);
            assert(ty != seq!['T', 'E', 'X', 'T']);
        }
    }
    assert(parse_col(cc) == Some(ColumnV { dt_type: c.dt_type, name: c.name }));
    // space-prefixed piece
    let sc = seq![' '] + cc;
    lemma_small_seq_no_char(seq![' '], ':');
    crate::strutil::lemma_concat_no_char(seq![' '], c.name, ':');
    assert(sc =~= (seq![' '] + c.name) + seq![':'] + (seq![' '] + ty));
    crate::strutil::lemma_find_prefix(seq![' '] + c.name, seq![' '] + ty, ':');
    assert(find_char(sc, ':') == Some(c.name.len() as int + 1));
    assert(sc.take(c.name.len() as int + 1) =~= seq![' '] + c.name);
    assert(sc.skip(c.name.len() as int + 2) =~= seq![' '] + ty);
    crate::strutil::lemma_trim_ws_prefix(c.name, ' ');
    assert(parse_col(sc) == Some(ColumnV { dt_type: c.dt_type, name: c.name }));
}

/// A clean, well-typed field renders to a piece that parses back to it
/// under its column's type, with or without a leading space.
proof fn lemma_field_chars_round_trip(f: FieldV, t: DataTypes)
    requires
        field_matches(f, t),
        clean_field(f),
    ensures
        !field_file_chars(f).contains(','),
        !field_file_chars(f).contains('\n'),
        parse_field(field_file_chars(f), t) == Some(f),
        parse_field(seq![' '] + field_file_chars(f), t) == Some(f),
{
    match f {
        FieldV::Text(s) => {
            crate::strutil::lemma_trim_stable(s);
            crate::strutil::lemma_trim_ws_prefix(s, ' ');
        },
        FieldV::Int(v) => {
            let cs = crate::strutil::int_chars(v);
            crate::strutil::lemma_int_chars_shape(v);
            assert(!cs.contains(',')) by {
                if cs.contains(',') {
                    let k = choose|k: int| 0 <= k < cs.len() && cs[k] == ',';
                    assert(crate::strutil::is_digit_char(cs[k]) || cs[k] == '-');
                }
            }
            assert(!cs.contains('\n')) by {
                if cs.contains('\n') {
                    let k = choose|k: int| 0 <= k < cs.len() && cs[k] == '\n';
                    assert(crate::strutil::is_digit_char(cs[k]) || cs[k] == '-');
                }
            }
            assert(crate::strutil::trim_stable(cs)) by {
                assert(crate::strutil::is_digit_char(cs[0]) || cs[0] == '-');
                assert(crate::strutil::is_digit_char(cs[cs.len() - 1]) || cs[cs.len() - 1]
                    == '-');
            }
            crate::strutil::lemma_trim_stable(cs);
            crate::strutil::lemma_trim_ws_prefix(cs, ' ');
            let v32 = v as i32;
            crate::strutil::lemma_int_chars_round_trip(v32);
            assert(v32 as int == v);
            assert(crate::strutil::parse_i32_val(cs) == Some(v32));
        },
    }
}

/// Pointwise parsing of the header pieces gives the whole header.
proof fn lemma_header_pieces_pointwise(pieces: Seq<Seq<char>>, cols: Seq<ColumnV>)
    requires
        pieces.len() == cols.len(),
        forall|k: int| 0 <= k < pieces.len() ==> parse_col(#[trigger] pieces[k]) == Some(cols[k]),
    ensures
        parse_header_pieces(pieces) == Some(cols),
    decreases pieces.len(),
{
    if pieces.len() > 0 {
        assert forall|k: int| 0 <= k < pieces.len() - 1 implies parse_col(
            #[trigger] pieces.drop_last()[k],
        ) == Some(cols.drop_last()[k]) by {
            assert(pieces.drop_last()[k] == pieces[k]);
            assert(cols.drop_last()[k] == cols[k]);
        }
        lemma_header_pieces_pointwise(pieces.drop_last(), cols.drop_last());
        assert(parse_col(pieces.last()) == Some(cols.last()));
        assert(cols.drop_last().push(cols.last()) =~= cols);
    }
}

/// Pointwise parsing of a row's pieces gives the whole row.
proof fn lemma_row_pieces_pointwise(pieces: Seq<Seq<char>>, row: Seq<FieldV>, header: Seq<ColumnV>)
    requires
        pieces.len() == row.len(),
        row.len() <= header.len(),
        forall|k: int|
            0 <= k < pieces.len() ==> parse_field(#[trigger] pieces[k], header[k].dt_type)
                == Some(row[k]),
    ensures
        parse_row_pieces(pieces, header) == Some(row),
    decreases pieces.len(),
{
    if pieces.len() > 0 {
        assert forall|k: int| 0 <= k < pieces.len() - 1 implies parse_field(
            #[trigger] pieces.drop_last()[k],
            header[k].dt_type,
        ) == Some(row.drop_last()[k]) by {
            assert(pieces.drop_last()[k] == pieces[k]);
            assert(row.drop_last()[k] == row[k]);
        }
        lemma_row_pieces_pointwise(pieces.drop_last(), row.drop_last(), header);
        assert(parse_field(pieces.last(), header[pieces.len() - 1].dt_type) == Some(row.last()));
        assert(row.drop_last().push(row.last()) =~= row);
    }
}

/// The rendered header line has no newline and parses back to the header.
proof fn lemma_header_line_round_trip(header: Seq<ColumnV>)
    requires
        header.len() >= 1,
        forall|i: int| 0 <= i < header.len() ==> clean_name((#[trigger] header[i]).name),
    ensures
        !render_header_line(header).contains('\n'),
        parse_header_line(render_header_line(header)) == Some(header),
{
    let hmap = header.map(|i: int, c: ColumnV| column_file_chars(c));
    assert forall|i: int| 0 <= i < hmap.len() implies !(#[trigger] hmap[i]).contains('\n')
        && !hmap[i].contains(',') by {
        lemma_column_chars_round_trip(header[i]);
    }
    lemma_small_seq_no_char(seq![',', ' '], '\n');
    crate::strutil::lemma_join_no_char(hmap, seq![',', ' '], '\n');
    assert(!Seq::<char>::empty().contains(',')) by {
        if Seq::<char>::empty().contains(',') {
            let k = choose|k: int| 0 <= k < 0 && Seq::<char>::empty()[k] == ',';
        }
    }
    crate::strutil::lemma_split_join_comma(Seq::empty(), hmap);
    let pieces = split_on(Seq::<char>::empty() + join_with(hmap, seq![',', ' ']), ',');
    assert(Seq::<char>::empty() + join_with(hmap, seq![',', ' ']) =~= render_header_line(header));
    assert(pieces == seq![Seq::<char>::empty() + hmap[0]] + crate::strutil::space_prefixed(
        hmap.skip(1),
    ));
    assert(pieces.len() == header.len());
    assert forall|k: int| 0 <= k < pieces.len() implies parse_col(#[trigger] pieces[k]) == Some(
        header[k],
    ) by {
        lemma_column_chars_round_trip(header[k]);
        if k == 0 {
            assert(pieces[0] == Seq::<char>::empty() + hmap[0]);
            assert(Seq::<char>::empty() + hmap[0] =~= column_file_chars(header[0]));
        } else {
            assert(pieces[k] == crate::strutil::space_prefixed(hmap.skip(1))[k - 1]);
            assert(pieces[k] == seq![' '] + hmap.skip(1)[k - 1]);
            assert(hmap.skip(1)[k - 1] == column_file_chars(header[k]));
        }
    }
    lemma_header_pieces_pointwise(pieces, header);
}

/// A rendered row line has no newline, splits into one piece per field,
/// and parses back to the row.
proof fn lemma_row_line_round_trip(row: Seq<FieldV>, header: Seq<ColumnV>)
    requires
        1 <= row.len() <= header.len(),
        forall|q: int|
            0 <= q < row.len() ==> field_matches(#[trigger] row[q], header[q].dt_type)
                && clean_field(row[q]),
    ensures
        !render_row_line(row).contains('\n'),
        split_on(render_row_line(row), ',').len() == row.len(),
        parse_row_pieces(split_on(render_row_line(row), ','), header) == Some(row),
{
    let rmap = row.map(|i: int, f: FieldV| field_file_chars(f));
    assert forall|i: int| 0 <= i < rmap.len() implies !(#[trigger] rmap[i]).contains('\n')
        && !rmap[i].contains(',') by {
        lemma_field_chars_round_trip(row[i], header[i].dt_type);
    }
    lemma_small_seq_no_char(seq![',', ' '], '\n');
    crate::strutil::lemma_join_no_char(rmap, seq![',', ' '], '\n');
    assert(!Seq::<char>::empty().contains(',')) by {
        if Seq::<char>::empty().contains(',') {
            let k = choose|k: int| 0 <= k < 0 && Seq::<char>::empty()[k] == ',';
        }
    }
    crate::strutil::lemma_split_join_comma(Seq::empty(), rmap);
    let pieces = split_on(Seq::<char>::empty() + join_with(rmap, seq![',', ' ']), ',');
    assert(Seq::<char>::empty() + join_with(rmap, seq![',', ' ']) =~= render_row_line(row));
    assert(pieces == seq![Seq::<char>::empty() + rmap[0]] + crate::strutil::space_prefixed(
        rmap.skip(1),
    ));
    assert(pieces.len() == row.len());
    assert forall|k: int| 0 <= k < pieces.len() implies parse_field(
        #[trigger] pieces[k],
        header[k].dt_type,
    ) == Some(row[k]) by {
        lemma_field_chars_round_trip(row[k], header[k].dt_type);
        if k == 0 {
            assert(pieces[0] == Seq::<char>::empty() + rmap[0]);
            assert(Seq::<char>::empty() + rmap[0] =~= field_file_chars(row[0]));
        } else {
            assert(pieces[k] == crate::strutil::space_prefixed(rmap.skip(1))[k - 1]);
            assert(pieces[k] == seq![' '] + rmap.skip(1)[k - 1]);
            assert(rmap.skip(1)[k - 1] == field_file_chars(row[k]));
        }
    }
    lemma_row_pieces_pointwise(pieces, row, header);
}

/// Splitting the rendered row block on newlines gives one line per row
/// and two empty tail pieces.
proof fn lemma_split_rows(entries: Seq<Seq<FieldV>>, header: Seq<ColumnV>)
    requires
        forall|r: int| 0 <= r < entries.len() ==> 1 <= (#[trigger] entries[r]).len()
            <= header.len(),
        forall|r: int, q: int|
            0 <= r < entries.len() && 0 <= q < entries[r].len() ==> field_matches(
                #[trigger] entries[r][q],
                header[q].dt_type,
            ) && clean_field(entries[r][q]),
    ensures
        split_on(render_rows(entries) + seq!['\n'], '\n') == entries.map(
            |i: int, r: Seq<FieldV>| render_row_line(r),
        ) + seq![Seq::<char>::empty(), Seq::<char>::empty()],
    decreases entries.len(),
{
    let emap = entries.map(|i: int, r: Seq<FieldV>| render_row_line(r));
    if entries.len() == 0 {
        assert(render_rows(entries) + seq!['\n'] =~= Seq::<char>::empty() + seq!['\n'] + Seq::<
            char,
        >::empty());
        assert(!Seq::<char>::empty().contains('\n')) by {
            if Seq::<char>::empty().contains('\n') {
                let k = choose|k: int| 0 <= k < 0 && Seq::<char>::empty()[k] == '\n';
            }
        }
        crate::strutil::lemma_split_prefix(Seq::empty(), Seq::empty(), '\n');
        crate::strutil::lemma_split_no_sep(Seq::empty(), '\n');
        assert(split_on(render_rows(entries) + seq!['\n'], '\n') == seq![Seq::<char>::empty()]
            + seq![Seq::<char>::empty()]);
        assert(seq![Seq::<char>::empty()] + seq![Seq::<char>::empty()] =~= emap + seq![
            Seq::<char>::empty(),
            Seq::<char>::empty(),
        ]);
    } else {
        let line0 = render_row_line(entries[0]);
        lemma_row_line_round_trip(entries[0], header);
        assert forall|r: int| 0 <= r < entries.skip(1).len() implies 1 <= (#[trigger] entries.skip(
            1,
        )[r]).len() <= header.len() by {
            assert(entries.skip(1)[r] == entries[r + 1]);
        }
        assert forall|r: int, q: int|
            0 <= r < entries.skip(1).len() && 0 <= q < entries.skip(1)[r].len() implies
            field_matches(#[trigger] entries.skip(1)[r][q], header[q].dt_type) && clean_field(
            entries.skip(1)[r][q],
        ) by {
            assert(entries.skip(1)[r] == entries[r + 1]);
        }
        lemma_split_rows(entries.skip(1), header);
        assert(render_rows(entries) + seq!['\n'] =~= line0 + seq!['\n'] + (render_rows(
            entries.skip(1),
        ) + seq!['\n']));
        crate::strutil::lemma_split_prefix(
            line0,
            render_rows(entries.skip(1)) + seq!['\n'],
            '\n',
        );
        let tailmap = entries.skip(1).map(|i: int, r: Seq<FieldV>| render_row_line(r));
        assert(split_on(render_rows(entries) + seq!['\n'], '\n') == seq![line0] + (tailmap + seq![
            Seq::<char>::empty(),
            Seq::<char>::empty(),
        ]));
        assert(seq![line0] + (tailmap + seq![Seq::<char>::empty(), Seq::<char>::empty()]) =~= emap
            + seq![Seq::<char>::empty(), Seq::<char>::empty()]) by {
            assert(emap.len() == entries.len());
            assert(emap[0] == line0);
            assert forall|k: int| 1 <= k < emap.len() implies emap[k] == tailmap[k - 1] by {
                assert(entries.skip(1)[k - 1] == entries[k]);
            }
        }
    }
}

/// Parses a line list of rendered rows followed by blank padding lines.
proof fn lemma_parse_row_lines_shape(
    lines: Seq<Seq<char>>,
    entries: Seq<Seq<FieldV>>,
    header: Seq<ColumnV>,
    npad: int,
)
    requires
        npad >= 0,
        lines.len() == entries.len() + npad,
        forall|k: int|
            0 <= k < entries.len() ==> split_on(#[trigger] lines[k], ',').len() >= 2
                && parse_row_pieces(split_on(lines[k], ','), header) == Some(entries[k]),
        forall|k: int|
            entries.len() <= k < lines.len() ==> split_on(#[trigger] lines[k], ',').len() <= 1,
    ensures
        parse_row_lines(lines, header) == Some(entries),
    decreases lines.len(),
{
    if npad > 0 {
        assert forall|k: int| 0 <= k < entries.len() implies split_on(
            #[trigger] lines.drop_last()[k],
            ',',
        ).len() >= 2 && parse_row_pieces(split_on(lines.drop_last()[k], ','), header) == Some(
            entries[k],
        ) by {
            assert(lines.drop_last()[k] == lines[k]);
        }
        assert forall|k: int| entries.len() <= k < lines.drop_last().len() implies split_on(
            #[trigger] lines.drop_last()[k],
            ',',
        ).len() <= 1 by {
            assert(lines.drop_last()[k] == lines[k]);
        }
        lemma_parse_row_lines_shape(lines.drop_last(), entries, header, npad - 1);
        assert(split_on(lines.last(), ',').len() <= 1);
    } else if entries.len() > 0 {
        assert forall|k: int| 0 <= k < entries.len() - 1 implies split_on(
            #[trigger] lines.drop_last()[k],
            ',',
        ).len() >= 2 && parse_row_pieces(split_on(lines.drop_last()[k], ','), header) == Some(
            entries.drop_last()[k],
        ) by {
            assert(lines.drop_last()[k] == lines[k]);
            assert(entries.drop_last()[k] == entries[k]);
        }
        lemma_parse_row_lines_shape(lines.drop_last(), entries.drop_last(), header, 0);
        assert(parse_row_pieces(split_on(lines.last(), ','), header) == Some(entries.last()));
        assert(entries.drop_last().push(entries.last()) =~= entries);
    }
}

/// Every field of every row is clean: ready for the file round trip.
pub open spec fn clean_entries(entries: Seq<Seq<FieldV>>) -> bool {
    forall|r: int, q: int|
        0 <= r < entries.len() && 0 <= q < entries[r].len() ==> clean_field(
            #[trigger] entries[r][q],
        )
}

/// Inserting clean values into a table with clean rows leaves every row
/// clean: the defaults are the empty text and zero, and the provided
/// values are clean by assumption.  With the round-trip law below, N
/// clean inserts into a clean table still reload to exactly the rows in
/// memory.
pub proof fn lemma_insert_keeps_clean(
    t: crate::database::table::TableV,
    names_opt: Option<Seq<Seq<char>>>,
    values: Seq<FieldV>,
)
    requires
        clean_entries(t.entries),
        forall|q: int| 0 <= q < values.len() ==> clean_field(#[trigger] values[q]),
    ensures
        match crate::database::table::insert_spec(t, names_opt, values) {
            Ok(t2) => clean_entries(t2.entries),
            Err(_) => true,
        },
{
    match crate::database::table::insert_spec(t, names_opt, values) {
        Ok(t2) => {
            let names = crate::database::table::names_or_header(names_opt, t.header);
            let row = crate::database::table::built_row(names, values, t.header);
            assert forall|q: int| 0 <= q < row.len() implies clean_field(#[trigger] row[q]) by {
                crate::database::table::lemma_source_index_props(names, t.header, q, 0);
                match crate::database::table::source_index(names, t.header, q, 0) {
                    Some(j) => {
                        assert(row[q] == values[j]);
                    },
                    None => {
                        assert(row[q] == crate::database::table::default_field(
                            t.header[q].dt_type,
                        ));
                        assert(!Seq::<char>::empty().contains(',')) by {
                            if Seq::<char>::empty().contains(',') {
                                let k = choose|k: int|
                                    0 <= k < 0 && Seq::<char>::empty()[k] == ',';
                            }
                        }
                        assert(!Seq::<char>::empty().contains('\n')) by {
                            if Seq::<char>::empty().contains('\n') {
                                let k = choose|k: int|
                                    0 <= k < 0 && Seq::<char>::empty()[k] == '\n';
                            }
                        }
                    },
                }
            }
            assert forall|r: int, q: int|
                0 <= r < t2.entries.len() && 0 <= q < t2.entries[r].len() implies clean_field(
                #[trigger] t2.entries[r][q],
            ) by {
                if r < t.entries.len() {
                    assert(t2.entries[r] == t.entries[r]);
                } else {
                    assert(t2.entries[r] == row);
                }
            }
        },
        Err(_) => {},
    }
}

/// Round trip through an insert: inserting clean, well-typed values into
/// a clean, well-formed table of at least two columns gives a table whose
/// written file loads back to exactly the rows in memory.  Each insert
/// re-establishes every condition here, so any number of inserts in a row
/// still reloads exactly.
pub proof fn lemma_insert_round_trip(
    t: crate::database::table::TableV,
    names_opt: Option<Seq<Seq<char>>>,
    values: Seq<FieldV>,
)
    requires
        crate::database::table::wf_table(t),
        t.header.len() >= 2,
        forall|i: int| 0 <= i < t.header.len() ==> clean_name((#[trigger] t.header[i]).name),
        forall|r: int| 0 <= r < t.entries.len() ==> (#[trigger] t.entries[r]).len() >= 2,
        clean_entries(t.entries),
        forall|q: int| 0 <= q < values.len() ==> clean_field(#[trigger] values[q]),
    ensures
        match crate::database::table::insert_spec(t, names_opt, values) {
            Ok(t2) => parse_table_text(render_table(t2.header, t2.entries)) == Some(
                (t2.header, t2.entries),
            ),
            Err(_) => true,
        },
{
    crate::database::table::lemma_insert_spec_wf(t, names_opt, values);
    lemma_insert_keeps_clean(t, names_opt, values);
    match crate::database::table::insert_spec(t, names_opt, values) {
        Ok(t2) => {
            assert forall|r: int| 0 <= r < t2.entries.len() implies 2 <= (
            #[trigger] t2.entries[r]).len() <= t2.header.len() by {
                if r < t.entries.len() {
                    assert(t2.entries[r] == t.entries[r]);
                    assert(crate::database::table::row_matches_header(t.entries[r], t.header));
                } else {
                    assert(t2.entries[r] == t2.entries.last());
                }
            }
            assert forall|r: int, q: int|
                0 <= r < t2.entries.len() && 0 <= q < t2.entries[r].len() implies field_matches(
                #[trigger] t2.entries[r][q],
                t2.header[q].dt_type,
            ) && clean_field(t2.entries[r][q]) by {
                assert(crate::database::table::row_matches_header(t2.entries[r], t2.header));
            }
            lemma_table_round_trip(t2.header, t2.entries);
        },
        Err(_) => {},
    }
}

/// Round trip: a well-formed table whose column names and text values are
/// clean, whose integer values fit 32 bits, and whose rows are at least
/// two fields wide writes a file that loads back to exactly the same
/// header and row list, in the same order.
pub proof fn lemma_table_round_trip(header: Seq<ColumnV>, entries: Seq<Seq<FieldV>>)
    requires
        header.len() >= 1,
        forall|i: int| 0 <= i < header.len() ==> clean_name((#[trigger] header[i]).name),
        forall|r: int| 0 <= r < entries.len() ==> 2 <= (#[trigger] entries[r]).len()
            <= header.len(),
        forall|r: int, q: int|
            0 <= r < entries.len() && 0 <= q < entries[r].len() ==> field_matches(
                #[trigger] entries[r][q],
                header[q].dt_type,
            ) && clean_field(entries[r][q]),
    ensures
        parse_table_text(render_table(header, entries)) == Some((header, entries)),
{
    let hl = render_header_line(header);
    let s = render_table(header, entries);
    lemma_header_line_round_trip(header);
    lemma_split_rows(entries, header);
    let emap = entries.map(|i: int, r: Seq<FieldV>| render_row_line(r));
    assert(s =~= hl + seq!['\n'] + (render_rows(entries) + seq!['\n']));
    crate::strutil::lemma_split_prefix(hl, render_rows(entries) + seq!['\n'], '\n');
    let lines = split_on(s, '\n');
    assert(lines == seq![hl] + (emap + seq![Seq::<char>::empty(), Seq::<char>::empty()]));
    assert(lines[0] == hl);
    let rest = lines.skip(1);
    assert(rest =~= emap + seq![Seq::<char>::empty(), Seq::<char>::empty()]);
    assert forall|k: int| 0 <= k < entries.len() implies split_on(#[trigger] rest[k], ',').len()
        >= 2 && parse_row_pieces(split_on(rest[k], ','), header) == Some(entries[k]) by {
        assert(rest[k] == emap[k]);
        assert(emap[k] == render_row_line(entries[k]));
        lemma_row_line_round_trip(entries[k], header);
    }
    assert forall|k: int| entries.len() <= k < rest.len() implies split_on(
        #[trigger] rest[k],
        ',',
    ).len() <= 1 by {
        assert(rest[k] == Seq::<char>::empty());
        crate::strutil::lemma_split_no_sep(Seq::empty(), ',');
        assert(!Seq::<char>::empty().contains(',')) by {
            if Seq::<char>::empty().contains(',') {
                let j = choose|j: int| 0 <= j < 0 && Seq::<char>::empty()[j] == ',';
            }
        }
    }
    lemma_parse_row_lines_shape(rest, entries, header, 2);
}

} // verus!
