use vstd::prelude::*;

verus! {

/// Who plays a side: a person at the console, or the computer choosing at
/// random or by exhaustive search.
#[derive(Clone, Copy, PartialEq, Eq, Structural, Debug)]
pub enum Player {
    Human,
    ComputerEasy,
    ComputerHard,
}

/// Whether `c` is white space in the sense of Unicode's White_Space property.
pub uninterp spec fn whitespace(c: char) -> bool;

/// Relies on char::is_whitespace: true exactly for the characters with the
/// Unicode White_Space property.
#[verifier::external_body]
fn is_space(c: char) -> (r: bool)
    ensures
        r == whitespace(c),
{
    c.is_whitespace()
}

/// The maximal runs of characters other than white space in `s`, in order.
pub open spec fn tokens(s: Seq<char>) -> Seq<Seq<char>>
    decreases s.len(),
{
    if s.len() == 0 {
        Seq::empty()
    } else {
        let prev = tokens(s.drop_last());
        let c = s.last();
        if whitespace(c) {
            prev
        } else if s.len() >= 2 && !whitespace(s[s.len() - 2]) {
            prev.update(prev.len() - 1, prev.last().push(c))
        } else {
            prev.push(seq![c])
        }
    }
}

/// `c` is one of the ASCII digits.
pub open spec fn is_digit(c: char) -> bool {
    '0' <= c <= '9'
}

/// The number that the decimal digits `d` write.
pub open spec fn decimal(d: Seq<char>) -> int
    decreases d.len(),
{
    if d.len() == 0 {
        0
    } else {
        decimal(d.drop_last()) * 10 + (d.last() as int - '0' as int)
    }
}

/// The digits of a token for an unsigned number: the token without one
/// leading `+`, if it has one.
pub open spec fn unsigned_digits(t: Seq<char>) -> Seq<char> {
    if t.len() > 0 && t[0] == '+' {
        t.drop_first()
    } else {
        t
    }
}

/// The row or column index that token `t` writes: an unsigned decimal number,
/// with an optional leading `+`, below 3.
pub open spec fn coordinate(t: Seq<char>) -> Option<usize> {
    let d = unsigned_digits(t);
    if d.len() > 0 && (forall|i: int| 0 <= i < d.len() ==> is_digit(#[trigger] d[i])) && decimal(d)
        < 3 {
        Some(decimal(d) as usize)
    } else {
        None
    }
}

/// The move that a line of input names: exactly two tokens, a row and then a
/// column, each a coordinate.
pub open spec fn move_of(s: Seq<char>) -> Option<(usize, usize)> {
    let ts = tokens(s);
    if ts.len() == 2 {
        match (coordinate(ts[0]), coordinate(ts[1])) {
            (Some(r), Some(c)) => Some((r, c)),
            _ => None,
        }
    } else {
        None
    }
}

/// Splits `line` at white space into its tokens.
pub fn split_tokens(line: &Vec<char>) -> (r: Vec<Vec<char>>)
    ensures
        r.deep_view() == tokens(line@),
{
    let mut toks: Vec<Vec<char>> = Vec::new();
    let mut cur: Vec<char> = Vec::new();
    let mut i: usize = 0;
    while i < line.len()
        invariant
            i <= line.len(),
            cur@.len() > 0 <==> (i > 0 && !whitespace(line@[i - 1])),
            tokens(line@.take(i as int)) == if cur@.len() > 0 {
                toks.deep_view().push(cur@)
            } else {
                toks.deep_view()
            },
        decreases line.len() - i,
    {
        let c = line[i];
        let ghost before = toks.deep_view();
        assert(line@.take(i + 1).drop_last() =~= line@.take(i as int));
        if is_space(c) {
            if cur.len() > 0 {
                let done = cur;
                assert(done.deep_view() =~= done@);
                toks.push(done);
                assert(toks.deep_view() =~= before.push(done@));
                cur = Vec::new();
            }
        } else {
            let ghost prev = cur@;
            cur.push(c);
            proof {
                let s = line@.take(i + 1);
                assert(s.last() == c);
                if i > 0 {
                    assert(s[s.len() - 2] == line@[i - 1]);
                }
                let t = tokens(s.drop_last());
                if prev.len() > 0 {
                    assert(t.last() == prev);
                    assert(tokens(s) =~= toks.deep_view().push(cur@));
                } else {
                    assert(cur@ =~= seq![c]);
                    assert(tokens(s) =~= toks.deep_view().push(cur@));
                }
            }
        }
        i += 1;
    }
    if cur.len() > 0 {
        let ghost before = toks.deep_view();
        assert(cur.deep_view() =~= cur@);
        toks.push(cur);
        assert(toks.deep_view() =~= before.push(cur@));
    }
    assert(line@.take(line.len() as int) =~= line@);
    toks
}

/// The coordinate that token `t` writes, if it writes one.
pub fn parse_coordinate(t: &Vec<char>) -> (r: Option<usize>)
    ensures
        r == coordinate(t@),
{
    let n = t.len();
    let start: usize = if n > 0 && t[0] == '+' {
        1
    } else {
        0
    };
    let ghost d = unsigned_digits(t@);
    assert(d =~= t@.subrange(start as int, n as int));
    if start >= n {
        return None;
    }
    let mut v: usize = 0;
    let mut j: usize = start;
    while j < n
        invariant
            start <= j <= n,
            n == t.len(),
            d == t@.subrange(start as int, n as int),
            d == unsigned_digits(t@),
            forall|i: int| 0 <= i < j - start ==> is_digit(#[trigger] d[i]),
            v == if decimal(d.take(j - start)) < 3 {
                decimal(d.take(j - start))
            } else {
                3
            },
        decreases n - j,
    {
        let c = t[j];
        assert(d[j - start] == c);
        if !('0' <= c && c <= '9') {
            return None;
        }
        assert(d.take(j - start + 1).drop_last() =~= d.take(j - start));
        let digit = (c as u32 - '0' as u32) as usize;
        let w = v * 10 + digit;
        v = if w >= 3 {
            3
        } else {
            w
        };
        j += 1;
    }
    assert(d.take(n - start) =~= d);
    if v < 3 {
        Some(v)
    } else {
        None
    }
}

/// The move that a line of input names, if it names one: a row and a
/// column, each below 3, separated by white space.
pub fn parse_move(line: &Vec<char>) -> (r: Option<(usize, usize)>)
    ensures
        r == move_of(line@),
{
    let toks = split_tokens(line);
    if toks.len() != 2 {
        return None;
    }
    assert(toks[0]@ =~= toks.deep_view()[0]);
    assert(toks[1]@ =~= toks.deep_view()[1]);
    let row = parse_coordinate(&toks[0]);
    let col = parse_coordinate(&toks[1]);
    match (row, col) {
        (Some(r), Some(c)) => Some((r, c)),
        _ => None,
    }
}

/// The opponent that a menu answer selects: the line holds `1`, `2` or `3`
/// alone, white space aside.
pub open spec fn mode_of(s: Seq<char>) -> Option<Player> {
    let ts = tokens(s);
    if ts.len() != 1 || ts[0].len() != 1 {
        None
    } else if ts[0][0] == '1' {
        Some(Player::Human)
    } else if ts[0][0] == '2' {
        Some(Player::ComputerEasy)
    } else if ts[0][0] == '3' {
        Some(Player::ComputerHard)
    } else {
        None
    }
}

/// The opponent that a menu answer selects, if it selects one.
pub fn parse_mode(line: &Vec<char>) -> (r: Option<Player>)
    ensures
        r == mode_of(line@),
{
    let toks = split_tokens(line);
    if toks.len() != 1 || toks[0].len() != 1 {
        proof {
            if toks.len() == 1 {
                assert(toks.deep_view()[0].len() == toks[0]@.len());
            }
        }
        return None;
    }
    let c = toks[0][0];
    assert(toks.deep_view()[0] =~= toks[0]@);
    if c == '1' {
        Some(Player::Human)
    } else if c == '2' {
        Some(Player::ComputerEasy)
    } else if c == '3' {
        Some(Player::ComputerHard)
    } else {
        None
    }
}

} // verus!