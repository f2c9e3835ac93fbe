use vstd::prelude::*;

use crate::text::{chars_of, same_chars, string_from_chars};

verus! {

/// Unicode `White_Space`, the set `char::is_whitespace` tests.
pub open spec fn is_ws(c: char) -> bool {
    ||| c == '\t' || c == '\n' || c == '\u{0B}' || c == '\u{0C}' || c == '\r' || c == ' '
    ||| c == '\u{85}' || c == '\u{A0}' || c == '\u{1680}'
    ||| ('\u{2000}' <= c && c <= '\u{200A}')
    ||| c == '\u{2028}' || c == '\u{2029}' || c == '\u{202F}' || c == '\u{205F}' || c == '\u{3000}'
}

fn is_whitespace_char(c: char) -> (r: bool)
    ensures
        r == is_ws(c),
{
    c == '\t' || c == '\n' || c == '\u{0B}' || c == '\u{0C}' || c == '\r' || c == ' '
        || c == '\u{85}' || c == '\u{A0}' || c == '\u{1680}'
        || ('\u{2000}' <= c && c <= '\u{200A}')
        || c == '\u{2028}' || c == '\u{2029}' || c == '\u{202F}' || c == '\u{205F}' || c == '\u{3000}'
}

/// The pieces of `s` separated by `sep`, the piece in progress being `cur`
/// (what `str::split` gives for a single-character separator).
pub open spec fn pieces(s: Seq<char>, sep: char, cur: Seq<char>) -> Seq<Seq<char>>
    decreases s.len(),
{
    if s.len() == 0 {
        seq![cur]
    } else if s[0] == sep {
        seq![cur] + pieces(s.drop_first(), sep, Seq::empty())
    } else {
        pieces(s.drop_first(), sep, cur.push(s[0]))
    }
}

/// The maximal runs of non-whitespace characters of `s`, the run in progress
/// being `cur` (what `str::split_whitespace` gives).
pub open spec fn words(s: Seq<char>, cur: Seq<char>) -> Seq<Seq<char>>
    decreases s.len(),
{
    let done: Seq<Seq<char>> = if cur.len() > 0 { seq![cur] } else { Seq::empty() };
    if s.len() == 0 {
        done
    } else if is_ws(s[0]) {
        done + words(s.drop_first(), Seq::empty())
    } else {
        words(s.drop_first(), cur.push(s[0]))
    }
}

proof fn lemma_pieces_nonempty(s: Seq<char>, sep: char, cur: Seq<char>)
    ensures
        pieces(s, sep, cur).len() >= 1,
    decreases s.len(),
{
    if s.len() > 0 {
        if s[0] != sep {
            lemma_pieces_nonempty(s.drop_first(), sep, cur.push(s[0]));
        }
    }
}

/// Splits `s[from..]` at every `sep`.
fn split_at_char(s: &Vec<char>, from: usize, sep: char) -> (r: Vec<Vec<char>>)
    requires
        from <= s@.len(),
    ensures
        r@.map_values(|v: Vec<char>| v@) == pieces(s@.skip(from as int), sep, Seq::empty()),
{
    let mut out: Vec<Vec<char>> = Vec::new();
    let mut cur: Vec<char> = Vec::new();
    let mut i = from;
    while i < s.len()
        invariant
            from <= i <= s@.len(),
            out@.map_values(|v: Vec<char>| v@) + pieces(s@.skip(i as int), sep, cur@)
                == pieces(s@.skip(from as int), sep, Seq::empty()),
        decreases s.len() - i,
    {
        let ghost rest = s@.skip(i as int);
        assert(rest.drop_first() =~= s@.skip(i + 1));
        let ghost old_out = out@.map_values(|v: Vec<char>| v@);
        if s[i] == sep {
            let mut done: Vec<char> = Vec::new();
            std::mem::swap(&mut done, &mut cur);
            out.push(done);
            assert(out@.map_values(|v: Vec<char>| v@) =~= old_out.push(done@));
            assert(old_out.push(done@) + pieces(s@.skip(i + 1), sep, Seq::empty())
                =~= old_out + (seq![done@] + pieces(s@.skip(i + 1), sep, Seq::empty())));
        } else {
            cur.push(s[i]);
        }
        i += 1;
    }
    let ghost old_out = out@.map_values(|v: Vec<char>| v@);
    out.push(cur);
    assert(out@.map_values(|v: Vec<char>| v@) =~= old_out.push(cur@));
    assert(old_out.push(cur@) =~= old_out + seq![cur@]);
    out
}

/// Splits `s` into its whitespace-separated words.
fn split_words(s: &Vec<char>) -> (r: Vec<Vec<char>>)
    ensures
        r@.map_values(|v: Vec<char>| v@) == words(s@, Seq::empty()),
{
    let mut out: Vec<Vec<char>> = Vec::new();
    let mut cur: Vec<char> = Vec::new();
    let mut i: usize = 0;
    assert(s@.skip(0) =~= s@);
    while i < s.len()
        invariant
            i <= s@.len(),
            out@.map_values(|v: Vec<char>| v@) + words(s@.skip(i as int), cur@) == words(s@, Seq::empty()),
        decreases s.len() - i,
    {
        let ghost rest = s@.skip(i as int);
        let ghost cur0 = cur@;
        assert(rest.drop_first() =~= s@.skip(i + 1));
        assert(rest[0] == s@[i as int]);
        let ghost old_out = out@.map_values(|v: Vec<char>| v@);
        if is_whitespace_char(s[i]) {
            if cur.len() > 0 {
                let mut done: Vec<char> = Vec::new();
                std::mem::swap(&mut done, &mut cur);
                out.push(done);
                assert(out@.map_values(|v: Vec<char>| v@) =~= old_out.push(done@));
                assert(old_out.push(done@) + words(s@.skip(i + 1), Seq::empty())
                    =~= old_out + (seq![done@] + words(s@.skip(i + 1), Seq::empty())));
            } else {
                assert(cur@ =~= Seq::<char>::empty());
                assert(Seq::<Seq<char>>::empty() + words(s@.skip(i + 1), Seq::empty()) =~= words(s@.skip(i + 1), Seq::empty()));
            }
        } else {
            cur.push(s[i]);
            assert(words(rest, cur0) == words(s@.skip(i + 1), cur@));
        }
        i += 1;
    }
    assert(s@.skip(i as int) =~= Seq::<char>::empty());
    if cur.len() > 0 {
        let ghost old_out = out@.map_values(|v: Vec<char>| v@);
        out.push(cur);
        assert(out@.map_values(|v: Vec<char>| v@) =~= old_out.push(cur@));
        assert(old_out.push(cur@) =~= old_out + seq![cur@]);
    } else {
        assert(out@.map_values(|v: Vec<char>| v@) + Seq::<Seq<char>>::empty() =~= out@.map_values(|v: Vec<char>| v@));
    }
    out
}


/// Whether every character is an ASCII digit.
pub open spec fn all_digits(d: Seq<char>) -> bool {
    forall|i: int| 0 <= i < d.len() ==> '0' <= #[trigger] d[i] <= '9'
}

/// The value of a string of decimal digits.
pub open spec fn digits_value(d: Seq<char>) -> int
    decreases d.len(),
{
    if d.len() == 0 {
        0
    } else {
        digits_value(d.drop_last()) * 10 + ((d.last() as int) - ('0' as int))
    }
}

/// `i32::from_str`: an optional `+` or `-`, then one or more decimal digits,
/// the value within the range of `i32`.
pub open spec fn spec_parse_i32(t: Seq<char>) -> Option<i32> {
    let signed = t.len() > 0 && (t[0] == '-' || t[0] == '+');
    let negative = t.len() > 0 && t[0] == '-';
    let d = if signed { t.drop_first() } else { t };
    if d.len() > 0 && all_digits(d) {
        let v = if negative { -digits_value(d) } else { digits_value(d) };
        if i32::MIN <= v <= i32::MAX { Some(v as i32) } else { None }
    } else {
        None
    }
}

proof fn lemma_digits_nonneg(d: Seq<char>)
    requires
        all_digits(d),
    ensures
        digits_value(d) >= 0,
    decreases d.len(),
{
    if d.len() > 0 {
        assert(all_digits(d.drop_last())) by {
            assert forall|i: int| 0 <= i < d.drop_last().len() implies '0' <= #[trigger] d.drop_last()[i] <= '9' by {
                assert(d.drop_last()[i] == d[i]);
            }
        }
        lemma_digits_nonneg(d.drop_last());
        assert('0' <= d[d.len() - 1] <= '9');
    }
}

/// Parses a signed decimal `i32` as `str::parse::<i32>` does.
pub fn parse_i32(t: &Vec<char>) -> (r: Option<i32>)
    ensures
        r == spec_parse_i32(t@),
{
    let n = t.len();
    if n == 0 {
        return None;
    }
    let negative = t[0] == '-';
    let start: usize = if t[0] == '-' || t[0] == '+' { 1 } else { 0 };
    let ghost d = if start == 1 { t@.drop_first() } else { t@ };
    assert(d =~= t@.skip(start as int));
    if start == n {
        return None;
    }
    let mut acc: i64 = 0;
    let mut overflow = false;
    let mut i = start;
    while i < n
        invariant
            start <= i <= n,
            n == t@.len(),
            d == t@.skip(start as int),
            d == if t@.len() > 0 && (t@[0] == '-' || t@[0] == '+') { t@.drop_first() } else { t@ },
            all_digits(d.take(i - start)),
            !overflow ==> acc == digits_value(d.take(i - start)) && 0 <= acc <= 0x8000_0000,
            overflow ==> digits_value(d.take(i - start)) > 0x8000_0000,
        decreases n - i,
    {
        let c = t[i];
        if !('0' <= c && c <= '9') {
            assert(d[i - start] == c);
            assert(!all_digits(d));
            assert(d == if t@.len() > 0 && (t@[0] == '-' || t@[0] == '+') { t@.drop_first() } else { t@ });
            assert(spec_parse_i32(t@) is None);
            return None;
        }
        let ghost pre = d.take(i - start);
        let ghost next = d.take(i - start + 1);
        assert(next.drop_last() =~= pre);
        assert(next.last() == c);
        assert(all_digits(next)) by {
            assert forall|j: int| 0 <= j < next.len() implies '0' <= #[trigger] next[j] <= '9' by {
                if j < pre.len() {
                    assert(next[j] == pre[j]);
                }
            }
        }
        proof { lemma_digits_nonneg(pre); }
        if !overflow {
            let digit: i64 = (c as u32 - '0' as u32) as i64;
            acc = acc * 10 + digit;
            if acc > 0x8000_0000 {
                overflow = true;
            }
        }
        i += 1;
    }
    assert(d.take(n - start) =~= d);
    if overflow {
        return None;
    }
    if negative {
        Some((0 - acc) as i32)
    } else if acc <= 0x7fff_ffff {
        Some(acc as i32)
    } else {
        None
    }
}

/// Words joined by single spaces (`[&str]::join(" ")`).
pub open spec fn join_words(ws: Seq<Seq<char>>) -> Seq<char>
    decreases ws.len(),
{
    if ws.len() == 0 {
        Seq::empty()
    } else if ws.len() == 1 {
        ws[0]
    } else {
        join_words(ws.drop_last()) + seq![' '] + ws.last()
    }
}

fn join_range(ws: &Vec<Vec<char>>, from: usize, to: usize) -> (r: Vec<char>)
    requires
        from <= to <= ws@.len(),
    ensures
        r@ == join_words(ws@.map_values(|v: Vec<char>| v@).subrange(from as int, to as int)),
{
    let ghost all = ws@.map_values(|v: Vec<char>| v@);
    let mut out: Vec<char> = Vec::new();
    let mut i = from;
    assert(all.subrange(from as int, from as int) =~= Seq::<Seq<char>>::empty());
    while i < to
        invariant
            from <= i <= to,
            to <= ws@.len(),
            all == ws@.map_values(|v: Vec<char>| v@),
            out@ == join_words(all.subrange(from as int, i as int)),
        decreases to - i,
    {
        let ghost before = out@;
        if i > from {
            out.push(' ');
        }
        let w = &ws[i];
        let mut j: usize = 0;
        let ghost mid = out@;
        while j < w.len()
            invariant
                j <= w@.len(),
                out@ == mid + w@.take(j as int),
            decreases w.len() - j,
        {
            out.push(w[j]);
            j += 1;
            assert(out@ =~= mid + w@.take(j as int));
        }
        assert(w@.take(j as int) =~= w@);
        let ghost next = all.subrange(from as int, i + 1);
        assert(next.drop_last() =~= all.subrange(from as int, i as int));
        assert(next.last() == w@);
        if i > from {
            assert(out@ =~= before + seq![' '] + w@);
        } else {
            assert(next.len() == 1);
            assert(out@ =~= w@);
        }
        i += 1;
    }
    out
}

/// A row of `top` output: process id, command name and power score, the score
/// as printed.
pub struct ProcessRow {
    pub pid: i32,
    pub name: String,
    pub power: String,
}

/// A row read from one line: at least three words, the first a process id, the
/// last the power score and the words between (joined by single spaces) the
/// command, unless the command is `top` itself.
pub open spec fn spec_row(line: Seq<char>) -> Option<(i32, Seq<char>, Seq<char>)> {
    let w = words(line, Seq::empty());
    if w.len() < 3 {
        None
    } else {
        match spec_parse_i32(w[0]) {
            None => None,
            Some(pid) => {
                let name = join_words(w.subrange(1, w.len() - 1));
                if name == "top"@ { None } else { Some((pid, name, w.last())) }
            },
        }
    }
}

/// The rows read from a list of lines, in order.
pub open spec fn spec_rows(lines: Seq<Seq<char>>) -> Seq<(i32, Seq<char>, Seq<char>)>
    decreases lines.len(),
{
    if lines.len() == 0 {
        Seq::empty()
    } else {
        spec_rows(lines.drop_last()) + match spec_row(lines.last()) {
            Some(r) => seq![r],
            None => Seq::empty(),
        }
    }
}

/// `PID` starts at position `i`.
pub open spec fn pid_at(s: Seq<char>, i: int) -> bool {
    0 <= i && i + 3 <= s.len() && s[i] == 'P' && s[i + 1] == 'I' && s[i + 2] == 'D'
}

/// The rows of the last sample frame: the lines after the last `PID` header,
/// nothing when there is no header.
pub open spec fn spec_parse_top(s: Seq<char>) -> Seq<(i32, Seq<char>, Seq<char>)> {
    if exists|i: int| pid_at(s, i) {
        let h = choose|i: int| pid_at(s, i) && forall|j: int| i < j ==> !pid_at(s, j);
        spec_rows(pieces(s.skip(h), '\n', Seq::empty()).skip(1))
    } else {
        Seq::empty()
    }
}

pub open spec fn row_view(r: ProcessRow) -> (i32, Seq<char>, Seq<char>) {
    (r.pid, r.name@, r.power@)
}

fn parse_row(line: &Vec<char>) -> (r: Option<ProcessRow>)
    ensures
        r matches Some(row) ==> spec_row(line@) == Some(row_view(row)),
        r is None ==> spec_row(line@) is None,
{
    let w = split_words(line);
    let ghost wv = w@.map_values(|v: Vec<char>| v@);
    let n = w.len();
    if n < 3 {
        return None;
    }
    assert(wv[0] == w@[0]@);
    let pid = match parse_i32(&w[0]) {
        Some(p) => p,
        None => return None,
    };
    let name = join_range(&w, 1, n - 1);
    let top = chars_of("top");
    if same_chars(&name, &top) {
        return None;
    }
    assert(wv.last() == w@[n - 1]@);
    Some(ProcessRow { pid, name: string_from_chars(&name), power: string_from_chars(&w[n - 1]) })
}

fn last_pid(s: &Vec<char>) -> (r: Option<usize>)
    ensures
        r matches Some(i) ==> pid_at(s@, i as int) && forall|j: int| i < j ==> !pid_at(s@, j),
        r is None ==> forall|j: int| !pid_at(s@, j),
{
    let n = s.len();
    if n < 3 {
        return None;
    }
    let mut i = n - 3 + 1;
    while i > 0
        invariant
            i <= n - 2,
            n == s@.len(),
            n >= 3,
            forall|j: int| i <= j ==> !pid_at(s@, j),
        decreases i,
    {
        i -= 1;
        if s[i] == 'P' && s[i + 1] == 'I' && s[i + 2] == 'D' {
            return Some(i);
        }
    }
    None
}

/// Reads the rows of the final sample frame of `top -stats pid,command,power`
/// output: every frame restarts with a `PID` header, so only the lines after
/// the last header count. A line yields a row when it has a process id, a
/// command (which may contain spaces) and a power score, and the command is not
/// `top` itself. The power score is returned as printed.
pub fn parse_top_output(text: &str) -> (r: Vec<ProcessRow>)
    ensures
        r@.map_values(|p: ProcessRow| row_view(p)) == spec_parse_top(text@),
{
    let chars = chars_of(text);
    let h = match last_pid(&chars) {
        Some(h) => h,
        None => {
            let r: Vec<ProcessRow> = Vec::new();
            assert(r@.map_values(|p: ProcessRow| row_view(p)) =~= Seq::<(i32, Seq<char>, Seq<char>)>::empty());
            return r;
        },
    };
    proof {
        let c = choose|i: int| pid_at(chars@, i) && forall|j: int| i < j ==> !pid_at(chars@, j);
        assert(pid_at(chars@, h as int) && forall|j: int| h < j ==> !pid_at(chars@, j));
        if c != h {
            if c < h {
                assert(!pid_at(chars@, h as int));
            } else {
                assert(!pid_at(chars@, c));
            }
        }
    }
    let lines = split_at_char(&chars, h, '\n');
    let ghost lv = lines@.map_values(|v: Vec<char>| v@);
    let mut rows: Vec<ProcessRow> = Vec::new();
    let mut k: usize = 1;
    proof { lemma_pieces_nonempty(chars@.skip(h as int), '\n', Seq::empty()); }
    assert(lv.skip(1).subrange(0, 0) =~= Seq::<Seq<char>>::empty());
    while k < lines.len()
        invariant
            1 <= k <= lines@.len(),
            lv == lines@.map_values(|v: Vec<char>| v@),
            rows@.map_values(|p: ProcessRow| row_view(p)) == spec_rows(lv.skip(1).subrange(0, k - 1)),
        decreases lines.len() - k,
    {
        let ghost before = rows@.map_values(|p: ProcessRow| row_view(p));
        let ghost prefix = lv.skip(1).subrange(0, k as int);
        assert(prefix.drop_last() =~= lv.skip(1).subrange(0, k - 1));
        assert(prefix.last() == lines@[k as int]@);
        match parse_row(&lines[k]) {
            Some(row) => {
                rows.push(row);
                assert(rows@.map_values(|p: ProcessRow| row_view(p)) =~= before + seq![row_view(row)]);
            },
            None => {
                assert(before + Seq::<(i32, Seq<char>, Seq<char>)>::empty() =~= before);
            },
        }
        k += 1;
    }
    assert(lv.skip(1).subrange(0, k - 1) =~= lv.skip(1));
    rows
}

} // verus!
