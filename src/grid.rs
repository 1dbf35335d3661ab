use vstd::prelude::*;

verus! {

/// The pieces of `s` between occurrences of `sep`, in order; `k`
/// separators always give `k + 1` pieces, empty ones included.
pub open spec fn split_on(s: Seq<char>, sep: char) -> Seq<Seq<char>>
    decreases s.len(),
{
    if s.len() == 0 {
        seq![Seq::empty()]
    } else {
        let rest = split_on(s.drop_last(), sep);
        if s.last() == sep {
            rest.push(Seq::empty())
        } else {
            rest.update(rest.len() - 1, rest.last().push(s.last()))
        }
    }
}

pub open spec fn is_digit(c: char) -> bool {
    '0' <= c <= '9'
}

pub open spec fn digit_value(c: char) -> int {
    c as int - '0' as int
}

/// Decimal value of a run of digits.
pub open spec fn digits_value(d: Seq<char>) -> int
    decreases d.len(),
{
    if d.len() == 0 {
        0
    } else {
        digits_value(d.drop_last()) * 10 + digit_value(d.last())
    }
}

pub open spec fn has_sign(t: Seq<char>) -> bool {
    t.len() > 0 && (t[0] == '-' || t[0] == '+')
}

/// The digits of a token, after its optional sign.
pub open spec fn token_digits(t: Seq<char>) -> Seq<char> {
    if has_sign(t) {
        t.drop_first()
    } else {
        t
    }
}

/// Value of a token read as a signed decimal integer.
pub open spec fn token_value(t: Seq<char>) -> int {
    if t.len() > 0 && t[0] == '-' {
        -digits_value(token_digits(t))
    } else {
        digits_value(token_digits(t))
    }
}

/// A token is an elevation when it is an optional `+` or `-` followed by
/// at least one decimal digit, with a value that fits in `i16`.
pub open spec fn token_ok(t: Seq<char>) -> bool {
    let d = token_digits(t);
    &&& d.len() > 0
    &&& forall|i: int| 0 <= i < d.len() ==> #[trigger] is_digit(d[i])
    &&& i16::MIN <= token_value(t) <= i16::MAX
}

/// The tokens of one line of map text.
pub open spec fn line_tokens(line: Seq<char>) -> Seq<Seq<char>> {
    split_on(line, ' ')
}

/// Every token of the line is an elevation.
pub open spec fn line_ok(line: Seq<char>) -> bool {
    forall|j: int| 0 <= j < line_tokens(line).len() ==> #[trigger] token_ok(line_tokens(line)[j])
}

/// The elevations of one line of map text.
pub open spec fn parsed_row(line: Seq<char>) -> Seq<i16> {
    line_tokens(line).map_values(|t: Seq<char>| token_value(t) as i16)
}

/// The lines of map text.
pub open spec fn text_lines(text: Seq<char>) -> Seq<Seq<char>> {
    split_on(text, '\n')
}

/// The grid that map text describes: one row per line, the last line first.
pub open spec fn parsed_grid(text: Seq<char>) -> Seq<Seq<i16>> {
    let lines = text_lines(text);
    Seq::new(lines.len(), |i: int| parsed_row(lines[lines.len() - 1 - i]))
}

/// The line, counted from the start of the text, whose token failed to parse.
#[derive(Clone, Copy, Debug, PartialEq, Eq, Structural)]
pub struct ParseError {
    pub line: usize,
}

proof fn lemma_split_nonempty(s: Seq<char>, sep: char)
    ensures
        split_on(s, sep).len() >= 1,
    decreases s.len(),
{
    if s.len() > 0 {
        lemma_split_nonempty(s.drop_last(), sep);
    }
}

proof fn lemma_digits_grow(d: Seq<char>, k: int)
    requires
        0 <= k <= d.len(),
        forall|i: int| 0 <= i < d.len() ==> #[trigger] is_digit(d[i]),
    ensures
        0 <= digits_value(d.take(k)) <= digits_value(d),
    decreases d.len(),
{
    if d.len() > 0 {
        let e = d.drop_last();
        assert forall|i: int| 0 <= i < e.len() implies #[trigger] is_digit(e[i]) by {
            assert(e[i] == d[i]);
        }
        assert(is_digit(d[d.len() - 1]));
        lemma_digits_grow(e, e.len() as int);
        assert(e.take(e.len() as int) =~= e);
        if k == d.len() {
            assert(d.take(k) =~= d);
        } else {
            lemma_digits_grow(e, k);
            assert(e.take(k) =~= d.take(k));
        }
    } else {
        assert(d.take(k) =~= d);
    }
}

/// The characters of `text`, in order.
fn chars_of(text: &str) -> (r: Vec<char>)
    ensures
        r@ == text@,
{
    let mut out: Vec<char> = Vec::new();
    for ch in it: text.chars()
        invariant
            out@ == it.seq().take(it.index() as int),
            it.seq() == text@,
    {
        out.push(ch);
    }
    out
}

/// Splits `s` at every occurrence of `sep`.
fn split_chars(s: &Vec<char>, sep: char) -> (r: Vec<Vec<char>>)
    ensures
        r@.len() == split_on(s@, sep).len(),
        forall|i: int| 0 <= i < r@.len() ==> #[trigger] r@[i]@ == split_on(s@, sep)[i],
{
    let mut done: Vec<Vec<char>> = Vec::new();
    let mut cur: Vec<char> = Vec::new();
    let mut i: usize = 0;
    while i < s.len()
        invariant
            0 <= i <= s@.len(),
            done@.len() + 1 == split_on(s@.take(i as int), sep).len(),
            forall|k: int| 0 <= k < done@.len() ==> #[trigger] done@[k]@ == split_on(s@.take(i as int), sep)[k],
            cur@ == split_on(s@.take(i as int), sep).last(),
        decreases s@.len() - i,
    {
        let ghost before = split_on(s@.take(i as int), sep);
        proof {
            lemma_split_nonempty(s@.take(i as int), sep);
            assert(s@.take(i + 1).drop_last() =~= s@.take(i as int));
        }
        let ch = s[i];
        if ch == sep {
            let piece = cur;
            done.push(piece);
            cur = Vec::new();
        } else {
            cur.push(ch);
        }
        i = i + 1;
        assert(done@.len() + 1 == split_on(s@.take(i as int), sep).len());
    }
    assert(s@.take(s@.len() as int) =~= s@);
    done.push(cur);
    proof {
        lemma_split_nonempty(s@, sep);
    }
    done
}

/// Reads one token as a signed decimal integer.
fn parse_token(t: &Vec<char>) -> (r: Option<i16>)
    ensures
        r is Some <==> token_ok(t@),
        r matches Some(v) ==> v as int == token_value(t@),
{
    let ghost d = token_digits(t@);
    let negative = t.len() > 0 && t[0] == '-';
    let start: usize = if t.len() > 0 && (t[0] == '-' || t[0] == '+') { 1 } else { 0 };
    assert(d =~= t@.subrange(start as int, t@.len() as int));
    if start == t.len() {
        return None;
    }
    let mut acc: i32 = 0;
    let mut i: usize = start;
    while i < t.len()
        invariant
            start <= i <= t@.len(),
            d == t@.subrange(start as int, t@.len() as int),
            d == token_digits(t@),
            acc == digits_value(d.take(i - start)),
            0 <= acc <= 32768,
            forall|k: int| 0 <= k < i - start ==> #[trigger] is_digit(d[k]),
        decreases t@.len() - i,
    {
        let ch = t[i];
        if ch < '0' || ch > '9' {
            assert(!is_digit(d[i - start]));
            return None;
        }
        assert(d.take(i - start + 1).drop_last() =~= d.take(i - start));
        let next = acc * 10 + (ch as u32 - '0' as u32) as i32;
        i = i + 1;
        if next > 32768 {
            proof {
                if forall|k: int| 0 <= k < d.len() ==> #[trigger] is_digit(d[k]) {
                    lemma_digits_grow(d, i - start);
                }
            }
            return None;
        }
        acc = next;
    }
    assert(d.take(d.len() as int) =~= d);
    if negative {
        Some((-acc) as i16)
    } else if acc > 32767 {
        None
    } else {
        Some(acc as i16)
    }
}

/// Reads the elevations of one line of map text.
fn parse_line(line: &Vec<char>) -> (r: Option<Vec<i16>>)
    ensures
        r is Some <==> line_ok(line@),
        r matches Some(v) ==> v@ == parsed_row(line@),
{
    let tokens = split_chars(line, ' ');
    let mut row: Vec<i16> = Vec::new();
    let mut j: usize = 0;
    while j < tokens.len()
        invariant
            tokens@.len() == line_tokens(line@).len(),
            forall|k: int| 0 <= k < tokens@.len() ==> #[trigger] tokens@[k]@ == line_tokens(line@)[k],
            0 <= j <= tokens@.len(),
            row@.len() == j,
            forall|k: int| 0 <= k < j ==> #[trigger] token_ok(line_tokens(line@)[k]),
            forall|k: int| 0 <= k < j ==> #[trigger] row@[k] == token_value(line_tokens(line@)[k]) as i16,
        decreases tokens@.len() - j,
    {
        assert(tokens@[j as int]@ == line_tokens(line@)[j as int]);
        match parse_token(&tokens[j]) {
            None => {
                return None;
            },
            Some(v) => {
                row.push(v);
            },
        }
        j = j + 1;
    }
    assert(row@ =~= parsed_row(line@));
    Some(row)
}

/// Reads map text: lines separated by `'\n'`, each a sequence of integers
/// separated by single spaces. The rows come out in reverse line order, so
/// the first line of the text becomes the last row of the grid. Fails, naming
/// the first offending line, when any token is not an `i16`.
pub fn parse_map(map: String) -> (r: Result<Vec<Vec<i16>>, ParseError>)
    ensures
        r is Ok <==> forall|l: int|
            0 <= l < text_lines(map@).len() ==> #[trigger] line_ok(text_lines(map@)[l]),
        r matches Ok(g) ==> g@.len() == parsed_grid(map@).len() && forall|i: int|
            0 <= i < g@.len() ==> #[trigger] g@[i]@ == parsed_grid(map@)[i],
        r matches Err(e) ==> e.line < text_lines(map@).len() && !line_ok(
            text_lines(map@)[e.line as int],
        ) && forall|l: int| 0 <= l < e.line ==> #[trigger] line_ok(text_lines(map@)[l]),
{
    let text = chars_of(map.as_str());
    let lines = split_chars(&text, '\n');
    let ghost ls = text_lines(map@);
    let mut ret: Vec<Vec<i16>> = Vec::new();
    let mut idx: usize = 0;
    while idx < lines.len()
        invariant
            lines@.len() == ls.len(),
            ls == text_lines(map@),
            forall|k: int| 0 <= k < lines@.len() ==> #[trigger] lines@[k]@ == ls[k],
            0 <= idx <= lines@.len(),
            ret@.len() == idx,
            forall|l: int| 0 <= l < idx ==> #[trigger] line_ok(ls[l]),
            forall|i: int| 0 <= i < idx ==> #[trigger] ret@[i]@ == parsed_row(ls[idx - 1 - i]),
        decreases lines@.len() - idx,
    {
        assert(lines@[idx as int]@ == ls[idx as int]);
        match parse_line(&lines[idx]) {
            None => {
                return Err(ParseError { line: idx });
            },
            Some(row) => {
                let ghost old_ret = ret@;
                ret.insert(0, row);
                assert forall|i: int| 0 <= i < idx + 1 implies #[trigger] ret@[i]@ == parsed_row(
                    ls[idx + 1 - 1 - i],
                ) by {
                    if i > 0 {
                        assert(ret@[i] == old_ret[i - 1]);
                    }
                }
            },
        }
        idx = idx + 1;
    }
    Ok(ret)
}

/// The map drawn when no map file is given: a 9 by 9 grid.
pub const DEFAULT_MAP: &'static str = "0 0 0 0 0 0 0 0 0\n0 1 1 1 -1 1 1 1 0\n0 1 2 2 2 2 2 1 0\n0 1 2 0 0 0 2 1 0\n0 -1 2 0 4 0 2 -1 0\n0 1 2 0 0 0 2 1 0\n0 1 2 2 2 2 2 1 0\n0 1 1 1 -1 1 1 1 0\n0 0 0 0 0 0 0 0 0";

/// The text of the built-in map.
pub fn get_default_map() -> (r: String)
    ensures
        r@ == DEFAULT_MAP@,
{
    DEFAULT_MAP.to_owned()
}

} // verus!
