//! A line-oriented text form of per-line coverage data: `file_path:line_number:execution_count`.

use crate::text::{
    all_digits, chars_of, dec, digits_value, is_ws, lemma_dec_props, split_nl, strip_cr, trim_end,
    trim_start, last_index, last_index_of, lines, lines_of, parse_u64, parse_u64_chars, push_all,
    push_str, string_from_chars, trim, trim_bounds, u64_to_dec,
};
use vstd::prelude::*;

verus! {

/// The execution count of one source line.
#[derive(Debug, Clone, PartialEq, Eq)]
pub struct CoverageLine {
    pub file_path: String,
    pub line_number: u64,
    pub execution_count: u64,
}

/// The coverage of a set of lines, in the order they were recorded.
#[derive(Debug, Clone, PartialEq, Eq)]
pub struct CoverageData {
    pub lines: Vec<CoverageLine>,
}

/// Why a text could not be read as coverage data.
#[derive(Debug, Clone, PartialEq, Eq)]
pub enum ParseError {
    EmptyInput,
    InvalidLine { line_num: usize, reason: String },
}

/// A coverage line as plain values: path, line number, execution count.
pub type LineModel = (Seq<char>, u64, u64);

/// A parse error as plain values.
pub enum ParseErrorView {
    EmptyInput,
    InvalidLine { line_num: int, reason: Seq<char> },
}

impl View for CoverageLine {
    type V = LineModel;

    open spec fn view(&self) -> LineModel {
        (self.file_path@, self.line_number, self.execution_count)
    }
}

impl View for CoverageData {
    type V = Seq<LineModel>;

    open spec fn view(&self) -> Seq<LineModel> {
        self.lines@.map_values(|l: CoverageLine| l@)
    }
}

impl View for ParseError {
    type V = ParseErrorView;

    open spec fn view(&self) -> ParseErrorView {
        match self {
            ParseError::EmptyInput => ParseErrorView::EmptyInput,
            ParseError::InvalidLine { line_num, reason } => ParseErrorView::InvalidLine {
                line_num: *line_num as int,
                reason: reason@,
            },
        }
    }
}

impl ParseError {
    /// The message this error displays as.
    pub open spec fn spec_message(&self) -> Seq<char> {
        match self {
            ParseError::EmptyInput => "empty input"@,
            ParseError::InvalidLine { line_num, reason } => "invalid line "@ + dec(*line_num as nat)
                + ": "@ + reason@,
        }
    }

    /// The message this error displays as.
    pub fn message(&self) -> (r: String)
        ensures
            r@ == self.spec_message(),
    {
        let mut out: Vec<char> = Vec::new();
        match self {
            ParseError::EmptyInput => {
                push_str(&mut out, "empty input");
            },
            ParseError::InvalidLine { line_num, reason } => {
                push_str(&mut out, "invalid line ");
                let n = u64_to_dec(*line_num as u64);
                push_all(&mut out, n.as_slice());
                push_str(&mut out, ": ");
                push_str(&mut out, reason.as_str());
            },
        }
        string_from_chars(out.as_slice())
    }
}

/// `(prefix, middle, last)` around the last two `':'` of `e`, as `rsplitn(3, ':')` cuts it.
pub open spec fn rsplit3(e: Seq<char>) -> Option<(Seq<char>, Seq<char>, Seq<char>)> {
    let j = last_index_of(e, ':');
    if j < 0 {
        None
    } else {
        let i = last_index_of(e.take(j), ':');
        if i < 0 {
            None
        } else {
            Some((e.take(i), e.subrange(i + 1, j), e.skip(j + 1)))
        }
    }
}

/// The error reported for line `line_num`.
pub open spec fn invalid(line_num: int, reason: Seq<char>) -> ParseErrorView {
    ParseErrorView::InvalidLine { line_num, reason }
}

/// How one non-empty, trimmed entry reads, on line `line_num`.
pub open spec fn parse_entry(e: Seq<char>, line_num: int) -> Result<LineModel, ParseErrorView> {
    match rsplit3(e) {
        None => Err(invalid(line_num, "expected format file_path:line_number:execution_count"@)),
        Some((path, mid, last)) => match parse_u64(last) {
            None => Err(invalid(line_num, "invalid execution count: "@ + last)),
            Some(count) => match parse_u64(mid) {
                None => Err(invalid(line_num, "invalid line number: "@ + mid)),
                Some(number) => if number == 0 {
                    Err(invalid(line_num, "line number must be >= 1"@))
                } else if path.len() == 0 {
                    Err(invalid(line_num, "file path is empty"@))
                } else {
                    Ok((path, number, count))
                },
            },
        },
    }
}

/// The result of reading the first `n` lines of `ls`: blank lines are skipped, and the first
/// invalid line stops the reading.
pub open spec fn parse_prefix(ls: Seq<Seq<char>>, n: int) -> Result<Seq<LineModel>, ParseErrorView>
    decreases n,
{
    if n <= 0 {
        Ok(seq![])
    } else {
        match parse_prefix(ls, n - 1) {
            Err(e) => Err(e),
            Ok(acc) => {
                let e = trim(ls[n - 1]);
                if e.len() == 0 {
                    Ok(acc)
                } else {
                    match parse_entry(e, n) {
                        Ok(l) => Ok(acc.push(l)),
                        Err(x) => Err(x),
                    }
                }
            },
        }
    }
}

/// What `parse` returns for `text`.
pub open spec fn spec_parse(text: Seq<char>) -> Result<Seq<LineModel>, ParseErrorView> {
    let t = trim(text);
    if t.len() == 0 {
        Err(ParseErrorView::EmptyInput)
    } else {
        parse_prefix(lines(t), lines(t).len() as int)
    }
}

/// The text form of one line, without its newline.
pub open spec fn entry_text(l: LineModel) -> Seq<char> {
    l.0 + seq![':'] + dec(l.1 as nat) + seq![':'] + dec(l.2 as nat)
}

/// What `serialize` returns: every line in its text form, each followed by `'\n'`.
pub open spec fn spec_serialize(d: Seq<LineModel>) -> Seq<char>
    decreases d.len(),
{
    if d.len() == 0 {
        seq![]
    } else {
        spec_serialize(d.drop_last()) + entry_text(d.last()) + seq!['\n']
    }
}

/// Writes each line as `file_path:line_number:execution_count` followed by a newline.
pub fn serialize(data: &CoverageData) -> (r: String)
    ensures
        r@ == spec_serialize(data@),
{
    let mut out: Vec<char> = Vec::new();
    for i in 0..data.lines.len()
        invariant
            out@ == spec_serialize(data@.take(i as int)),
    {
        let line = &data.lines[i];
        proof {
            assert(data@.take(i + 1).drop_last() =~= data@.take(i as int));
            assert(data@.take(i + 1).last() == line@);
        }
        push_str(&mut out, line.file_path.as_str());
        out.push(':');
        let a = u64_to_dec(line.line_number);
        push_all(&mut out, a.as_slice());
        out.push(':');
        let b = u64_to_dec(line.execution_count);
        push_all(&mut out, b.as_slice());
        out.push('\n');
        proof {
            assert(out@ =~= spec_serialize(data@.take(i as int)) + entry_text(line@) + seq!['\n']);
        }
    }
    proof {
        assert(data@.take(data@.len() as int) =~= data@);
    }
    string_from_chars(out.as_slice())
}

fn copy_range(v: &[char], a: usize, b: usize) -> (r: Vec<char>)
    requires
        a <= b <= v.len(),
    ensures
        r@ == v@.subrange(a as int, b as int),
{
    let mut r: Vec<char> = Vec::new();
    for k in a..b
        invariant
            a <= k <= b <= v.len(),
            r@ == v@.subrange(a as int, k as int),
    {
        r.push(v[k]);
        proof { assert(v@.subrange(a as int, k + 1) =~= v@.subrange(a as int, k as int).push(v@[k as int])); }
    }
    r
}

fn invalid_line(line_num: usize, prefix: &str, detail: &[char]) -> (r: ParseError)
    ensures
        r@ == invalid(line_num as int, prefix@ + detail@),
{
    let mut out: Vec<char> = Vec::new();
    push_str(&mut out, prefix);
    push_all(&mut out, detail);
    ParseError::InvalidLine { line_num, reason: string_from_chars(out.as_slice()) }
}

fn parse_entry_exec(e: &[char], line_num: usize) -> (r: Result<CoverageLine, ParseError>)
    ensures
        match r {
            Ok(l) => parse_entry(e@, line_num as int) == Ok::<LineModel, ParseErrorView>(l@),
            Err(x) => parse_entry(e@, line_num as int) == Err::<LineModel, ParseErrorView>(x@),
        },
{
    proof { assert(e@.take(e@.len() as int) =~= e@); }
    let j = match last_index(e, e.len(), ':') {
        Some(j) => j,
        None => {
            return Err(invalid_line(line_num, "expected format file_path:line_number:execution_count", &[]));
        },
    };
    let i = match last_index(e, j, ':') {
        Some(i) => i,
        None => {
            proof { assert(e@.take(j as int) =~= e@.take(j as int).take(j as int)); }
            return Err(invalid_line(line_num, "expected format file_path:line_number:execution_count", &[]));
        },
    };
    proof {
        assert(e@.take(j as int).take(j as int) =~= e@.take(j as int));
        assert(j < e@.len());
        assert(i < j);
    }
    let path = copy_range(e, 0, i);
    let mid = copy_range(e, i + 1, j);
    let last = copy_range(e, j + 1, e.len());
    proof {
        assert(path@ =~= e@.take(i as int));
        assert(last@ =~= e@.skip(j + 1));
    }
    let count = match parse_u64_chars(last.as_slice()) {
        Some(c) => c,
        None => {
            return Err(invalid_line(line_num, "invalid execution count: ", last.as_slice()));
        },
    };
    let number = match parse_u64_chars(mid.as_slice()) {
        Some(n) => n,
        None => {
            return Err(invalid_line(line_num, "invalid line number: ", mid.as_slice()));
        },
    };
    if number == 0 {
        return Err(invalid_line(line_num, "line number must be >= 1", &[]));
    }
    if path.len() == 0 {
        return Err(invalid_line(line_num, "file path is empty", &[]));
    }
    Ok(CoverageLine {
        file_path: string_from_chars(path.as_slice()),
        line_number: number,
        execution_count: count,
    })
}

proof fn lemma_parse_prefix_err_stays(ls: Seq<Seq<char>>, n: int, m: int, e: ParseErrorView)
    requires
        0 <= n <= m,
        parse_prefix(ls, n) == Err::<Seq<LineModel>, ParseErrorView>(e),
    ensures
        parse_prefix(ls, m) == Err::<Seq<LineModel>, ParseErrorView>(e),
    decreases m - n,
{
    if m > n {
        lemma_parse_prefix_err_stays(ls, n, m - 1, e);
    }
}

/// Reads coverage data from its text form. The text is trimmed first; an empty text is an
/// error, blank lines are skipped, and the first malformed line is reported with its number.
pub fn parse(text: &str) -> (r: Result<CoverageData, ParseError>)
    ensures
        match r {
            Ok(d) => spec_parse(text@) == Ok::<Seq<LineModel>, ParseErrorView>(d@),
            Err(e) => spec_parse(text@) == Err::<Seq<LineModel>, ParseErrorView>(e@),
        },
{
    let chars = chars_of(text);
    let (a, b) = trim_bounds(chars.as_slice(), 0, chars.len());
    proof { assert(chars@.subrange(0, chars@.len() as int) =~= text@); }
    if a == b {
        return Err(ParseError::EmptyInput);
    }
    let trimmed = copy_range(chars.as_slice(), a, b);
    let ls = lines_of(trimmed.as_slice());
    let ghost lsv = lines(trimmed@);
    let mut out: Vec<CoverageLine> = Vec::new();
    proof {
        assert(out@.map_values(|l: CoverageLine| l@) =~= Seq::<LineModel>::empty());
        assert(trimmed@ == trim(text@));
    }
    for i in 0..ls.len()
        invariant
            trimmed@ == trim(text@),
            trimmed@.len() > 0,
            lsv == lines(trimmed@),
            ls@.len() == lsv.len(),
            forall|k: int| 0 <= k < ls@.len() ==> #[trigger] ls@[k]@ == lsv[k],
            parse_prefix(lsv, i as int) == Ok::<Seq<LineModel>, ParseErrorView>(out@.map_values(|l: CoverageLine| l@)),
    {
        let raw = &ls[i];
        let (x, y) = trim_bounds(raw.as_slice(), 0, raw.len());
        proof {
            assert(raw@.subrange(0, raw@.len() as int) =~= raw@);
            assert(raw@ == lsv[i as int]);
        }
        if x == y {
            proof {
                assert(parse_prefix(lsv, i + 1) == parse_prefix(lsv, i as int));
            }
        } else {
        let entry = copy_range(raw.as_slice(), x, y);
        proof { assert(entry@ == trim(lsv[i as int])); }
        match parse_entry_exec(entry.as_slice(), i + 1) {
            Ok(l) => {
                let ghost before = out@;
                let ghost lv = l@;
                out.push(l);
                proof {
                    assert(out@.map_values(|l: CoverageLine| l@) =~= before.map_values(|l: CoverageLine| l@).push(lv));
                }
            },
            Err(e) => {
                proof {
                    assert(parse_prefix(lsv, i + 1) == Err::<Seq<LineModel>, ParseErrorView>(e@));
                    lemma_parse_prefix_err_stays(lsv, i + 1, lsv.len() as int, e@);
                }
                return Err(e);
            },
        }
        }
    }
    Ok(CoverageData { lines: out })
}

/// A line whose text form reads back as itself: a non-empty path that neither starts with
/// whitespace nor holds a newline, and a line number of at least 1.
pub open spec fn writable(l: LineModel) -> bool {
    &&& l.0.len() > 0
    &&& !is_ws(l.0[0])
    &&& forall|i: int| 0 <= i < l.0.len() ==> #[trigger] l.0[i] != '\n'
    &&& l.1 >= 1
}

proof fn lemma_split_append(x: Seq<char>, y: Seq<char>)
    requires
        forall|i: int| 0 <= i < y.len() ==> #[trigger] y[i] != '\n',
    ensures
        split_nl(x + y) == split_nl(x).update(split_nl(x).len() - 1, split_nl(x).last() + y),
    decreases y.len(),
{
    crate::text::lemma_split_nl_len(x);
    if y.len() == 0 {
        assert(x + y =~= x);
        assert(split_nl(x).last() + y =~= split_nl(x).last());
        assert(split_nl(x).update(split_nl(x).len() - 1, split_nl(x).last()) =~= split_nl(x));
    } else {
        let yp = y.drop_last();
        assert forall|i: int| 0 <= i < yp.len() implies #[trigger] yp[i] != '\n' by { assert(yp[i] == y[i]); }
        lemma_split_append(x, yp);
        assert((x + y).drop_last() =~= x + yp);
        assert((x + y).last() == y.last());
        assert(y.last() == y[y.len() - 1]);
        let p = split_nl(x);
        let q = split_nl(x + yp);
        assert(q == p.update(p.len() - 1, p.last() + yp));
        assert(split_nl(x + y) == q.update(q.len() - 1, q.last().push(y.last())));
        assert(q.last() == p.last() + yp);
        assert((p.last() + yp).push(y.last()) =~= p.last() + y);
        assert(split_nl(x + y) =~= p.update(p.len() - 1, p.last() + y));
    }
}

proof fn lemma_entry_facts(l: LineModel)
    requires
        writable(l),
    ensures
        entry_text(l).len() > 0,
        entry_text(l)[0] == l.0[0],
        !is_ws(entry_text(l).last()),
        entry_text(l).last() != '\r',
        forall|i: int| 0 <= i < entry_text(l).len() ==> #[trigger] entry_text(l)[i] != '\n',
{
    lemma_dec_props(l.1 as nat);
    lemma_dec_props(l.2 as nat);
    let e = entry_text(l);
    let a = l.0 + seq![':'] + dec(l.1 as nat) + seq![':'];
    let b = dec(l.2 as nat);
    assert(e == a + b);
    assert(e.last() == b[b.len() - 1]);
    assert(e[0] == l.0[0]);
    assert forall|i: int| 0 <= i < e.len() implies #[trigger] e[i] != '\n' by {
        let la = l.0.len();
        let d1 = dec(l.1 as nat);
        if i < la {
            assert(e[i] == l.0[i]);
        } else if i == la {
        } else if i < la + 1 + d1.len() {
            assert(e[i] == d1[i - la - 1]);
        } else if i == la + 1 + d1.len() {
        } else {
            assert(e[i] == b[i - a.len()]);
        }
    }
}

proof fn lemma_serialize_facts(d: Seq<LineModel>)
    requires
        d.len() > 0,
        forall|i: int| 0 <= i < d.len() ==> writable(#[trigger] d[i]),
    ensures
        spec_serialize(d).len() > 0,
        spec_serialize(d)[0] == d[0].0[0],
        spec_serialize(d).last() == '\n',
        split_nl(spec_serialize(d)) == d.map_values(|l: LineModel| entry_text(l)).push(Seq::<char>::empty()),
    decreases d.len(),
{
    let dp = d.drop_last();
    let l = d.last();
    assert(writable(d[d.len() - 1]));
    lemma_entry_facts(l);
    let e = entry_text(l);
    let sp = spec_serialize(dp);
    let s = spec_serialize(d);
    assert(s == sp + e + seq!['\n']);
    assert(s =~= (sp + e).push('\n'));
    assert((sp + e).push('\n').drop_last() =~= sp + e);
    lemma_split_append(sp, e);
    if dp.len() == 0 {
        assert(sp =~= Seq::<char>::empty());
        assert(split_nl(sp) =~= seq![Seq::<char>::empty()]);
        assert(s[0] == e[0]);
        assert(d[0] == l);
        assert(d.map_values(|l: LineModel| entry_text(l)) =~= seq![e]);
        assert(split_nl(sp + e) =~= seq![e]);
    } else {
        assert forall|i: int| 0 <= i < dp.len() implies writable(#[trigger] dp[i]) by { assert(dp[i] == d[i]); }
        lemma_serialize_facts(dp);
        assert(s[0] == sp[0]);
        assert(dp[0] == d[0]);
        let ep = dp.map_values(|l: LineModel| entry_text(l));
        assert(split_nl(sp) == ep.push(Seq::<char>::empty()));
        assert(split_nl(sp + e) =~= ep.push(e));
        assert(d.map_values(|l: LineModel| entry_text(l)) =~= ep.push(e));
    }
}

proof fn lemma_last_index_after(x: Seq<char>, c: char, y: Seq<char>)
    requires
        forall|i: int| 0 <= i < y.len() ==> #[trigger] y[i] != c,
    ensures
        last_index_of(x.push(c) + y, c) == x.len(),
    decreases y.len(),
{
    if y.len() == 0 {
        assert(x.push(c) + y =~= x.push(c));
        assert(x.push(c).last() == c);
    } else {
        let yp = y.drop_last();
        assert forall|i: int| 0 <= i < yp.len() implies #[trigger] yp[i] != c by { assert(yp[i] == y[i]); }
        lemma_last_index_after(x, c, yp);
        assert((x.push(c) + y).drop_last() =~= x.push(c) + yp);
        assert((x.push(c) + y).last() == y[y.len() - 1]);
    }
}

proof fn lemma_parse_u64_dec(n: u64)
    ensures
        parse_u64(dec(n as nat)) == Some(n),
{
    lemma_dec_props(n as nat);
}

proof fn lemma_entry_reads_back(l: LineModel, line_num: int)
    requires
        writable(l),
    ensures
        trim(entry_text(l)) == entry_text(l),
        parse_entry(entry_text(l), line_num) == Ok::<LineModel, ParseErrorView>(l),
{
    lemma_entry_facts(l);
    lemma_dec_props(l.1 as nat);
    lemma_dec_props(l.2 as nat);
    let e = entry_text(l);
    let d1 = dec(l.1 as nat);
    let d2 = dec(l.2 as nat);
    assert(trim_start(e) == e);
    assert(trim_end(e) == e);
    let x1 = l.0 + seq![':'] + d1;
    assert(e =~= x1.push(':') + d2);
    lemma_last_index_after(x1, ':', d2);
    let j = x1.len() as int;
    assert(e.take(j) =~= l.0.push(':') + d1);
    lemma_last_index_after(l.0, ':', d1);
    let i = l.0.len() as int;
    assert(e.take(j).take(i) =~= l.0);
    assert(e.take(i) =~= l.0);
    assert(e.subrange(i + 1, j) =~= d1);
    assert(e.skip(j + 1) =~= d2);
    assert(rsplit3(e) == Some((l.0, d1, d2)));
    lemma_parse_u64_dec(l.1);
    lemma_parse_u64_dec(l.2);
}

proof fn lemma_prefix_reads_back(d: Seq<LineModel>, k: int)
    requires
        0 <= k <= d.len(),
        forall|i: int| 0 <= i < d.len() ==> writable(#[trigger] d[i]),
    ensures
        parse_prefix(d.map_values(|l: LineModel| entry_text(l)), k) == Ok::<Seq<LineModel>, ParseErrorView>(d.take(k)),
    decreases k,
{
    let es = d.map_values(|l: LineModel| entry_text(l));
    if k == 0 {
        assert(d.take(0) =~= Seq::<LineModel>::empty());
    } else {
        lemma_prefix_reads_back(d, k - 1);
        assert(writable(d[k - 1]));
        lemma_entry_reads_back(d[k - 1], k);
        lemma_entry_facts(d[k - 1]);
        assert(es[k - 1] == entry_text(d[k - 1]));
        assert(d.take(k) =~= d.take(k - 1).push(d[k - 1]));
    }
}

/// Reading back the text form of non-empty, writable coverage data gives the same data.
pub proof fn law_serialize_parse_roundtrip(d: Seq<LineModel>)
    requires
        d.len() > 0,
        forall|i: int| 0 <= i < d.len() ==> writable(#[trigger] d[i]),
    ensures
        spec_parse(spec_serialize(d)) == Ok::<Seq<LineModel>, ParseErrorView>(d),
{
    let s = spec_serialize(d);
    lemma_serialize_facts(d);
    let es = d.map_values(|l: LineModel| entry_text(l));
    let j = s.drop_last();
    assert(s =~= j.push('\n'));
    // trimming drops only the final newline
    assert(trim_start(s) == s);
    assert(is_ws(s.last()));
    assert(trim_end(s) == trim_end(j));
    assert(writable(d[d.len() - 1]));
    lemma_entry_facts(d.last());
    assert(j.len() > 0);
    assert(j.last() == entry_text(d.last()).last()) by {
        let dp = d.drop_last();
        assert(s == spec_serialize(dp) + entry_text(d.last()) + seq!['\n']);
        assert(j =~= spec_serialize(dp) + entry_text(d.last()));
    }
    assert(trim_end(j) == j);
    assert(trim(s) == j);
    // the lines of the trimmed text are the entries
    assert(split_nl(s) == split_nl(j).push(Seq::<char>::empty()));
    assert(split_nl(j) =~= es) by {
        assert(split_nl(j) == split_nl(s).drop_last());
        assert(es.push(Seq::<char>::empty()).drop_last() =~= es);
    }
    assert(lines(j) =~= es) by {
        let p = split_nl(j);
        assert(p.last() == entry_text(d.last()));
        assert forall|i: int| 0 <= i < p.len() - 1 implies strip_cr(#[trigger] p[i]) == p[i] by {
            assert(writable(d[i]));
            lemma_entry_facts(d[i]);
            assert(p[i] == entry_text(d[i]));
        }
        let body = p.take(p.len() - 1).map_values(|l: Seq<char>| strip_cr(l));
        assert(body.push(p.last()) =~= p);
    }
    lemma_prefix_reads_back(d, d.len() as int);
    assert(d.take(d.len() as int) =~= d);
}

/// Every line that `parse` accepts has a non-empty path and a line number of at least 1.
pub proof fn law_parsed_lines_valid(text: Seq<char>)
    ensures
        spec_parse(text) matches Ok(ls) ==> forall|i: int| 0 <= i < ls.len() ==> (#[trigger] ls[i]).0.len() > 0 && ls[i].1 >= 1,
{
    let t = trim(text);
    if t.len() > 0 {
        lemma_prefix_valid(lines(t), lines(t).len() as int);
    }
}

proof fn lemma_prefix_valid(ls: Seq<Seq<char>>, n: int)
    ensures
        parse_prefix(ls, n) matches Ok(acc) ==> forall|i: int| 0 <= i < acc.len() ==> (#[trigger] acc[i]).0.len() > 0 && acc[i].1 >= 1,
    decreases n,
{
    if n > 0 {
        lemma_prefix_valid(ls, n - 1);
    }
}

/// The lines among the first `n` of `ls` that are not blank.
pub open spec fn nonblank_lines(ls: Seq<Seq<char>>, n: int) -> nat
    decreases n,
{
    if n <= 0 {
        0
    } else {
        nonblank_lines(ls, n - 1) + if trim(ls[n - 1]).len() > 0 { 1nat } else { 0nat }
    }
}

proof fn lemma_prefix_counts(ls: Seq<Seq<char>>, n: int)
    requires
        0 <= n <= ls.len(),
    ensures
        parse_prefix(ls, n) matches Ok(acc) ==> acc.len() == nonblank_lines(ls, n)
            && forall|k: int| 0 <= k < n ==> trim(ls[k]).len() == 0 || #[trigger] parse_entry(trim(ls[k]), k + 1) is Ok,
        parse_prefix(ls, n) matches Err(e) ==> e matches ParseErrorView::InvalidLine { line_num, reason } && 1 <= line_num <= n
            && trim(ls[line_num - 1]).len() > 0
            && parse_entry(trim(ls[line_num - 1]), line_num) == Err::<LineModel, ParseErrorView>(invalid(line_num, reason))
            && forall|k: int| 0 <= k < line_num - 1 ==> trim(ls[k]).len() == 0 || #[trigger] parse_entry(trim(ls[k]), k + 1) is Ok,
    decreases n,
{
    if n > 0 {
        lemma_prefix_counts(ls, n - 1);
    }
}

/// Reading coverage text gives one entry per non-blank line of the trimmed text. When it fails
/// on a line, that line is the first non-blank line (counted from 1 in the trimmed text) that
/// does not read as an entry, and every non-blank line before it reads.
pub proof fn law_parse_counts_lines(text: Seq<char>)
    ensures
        spec_parse(text) matches Ok(d) ==> d.len() == nonblank_lines(lines(trim(text)), lines(trim(text)).len() as int),
        spec_parse(text) matches Err(ParseErrorView::InvalidLine { line_num, reason }) ==> {
            let ls = lines(trim(text));
            &&& 1 <= line_num <= ls.len()
            &&& trim(ls[line_num - 1]).len() > 0
            &&& parse_entry(trim(ls[line_num - 1]), line_num) == Err::<LineModel, ParseErrorView>(invalid(line_num, reason))
            &&& forall|k: int| 0 <= k < line_num - 1 ==> trim(ls[k]).len() == 0 || #[trigger] parse_entry(trim(ls[k]), k + 1) is Ok
        },
{
    let t = trim(text);
    if t.len() > 0 {
        lemma_prefix_counts(lines(t), lines(t).len() as int);
    }
}

} // verus!
