use vstd::prelude::*;
use vstd::string::StrSliceExecFns;

verus! {

/// Where a round stands in a match: round wind index, hand within the round
/// (kyoku) and repeat counter (honba).
#[derive(Clone, Copy, Debug, PartialEq, Eq, Structural)]
pub struct RoundPosition {
    pub round: usize,
    pub kyoku: usize,
    pub honba: usize,
}

/// Lexicographic order on (round, kyoku, honba).
pub open spec fn position_lt(a: RoundPosition, b: RoundPosition) -> bool {
    a.round < b.round || (a.round == b.round && (a.kyoku < b.kyoku || (a.kyoku == b.kyoku
        && a.honba < b.honba)))
}

impl RoundPosition {
    pub fn new(round: usize, kyoku: usize, honba: usize) -> (r: RoundPosition)
        ensures
            r.round == round,
            r.kyoku == kyoku,
            r.honba == honba,
    {
        RoundPosition { round, kyoku, honba }
    }

    /// Whether `self` comes strictly before `other`.
    pub fn is_before(&self, other: &RoundPosition) -> (r: bool)
        ensures
            r == position_lt(*self, *other),
    {
        self.round < other.round || (self.round == other.round && (self.kyoku < other.kyoku || (
        self.kyoku == other.kyoku && self.honba < other.honba)))
    }
}

/// The skip position could not be read: some comma-separated piece is not a
/// non-negative integer that fits in `usize`.
#[derive(Clone, Copy, Debug, PartialEq, Eq, Structural)]
pub enum SkipError {
    InvalidNumber,
}

pub open spec fn is_digit(c: char) -> bool {
    '0' <= c <= '9'
}

/// The value of a string of decimal digits, most significant first.
pub open spec fn digits_value(s: Seq<char>) -> int
    decreases s.len(),
{
    if s.len() == 0 {
        0
    } else {
        digits_value(s.drop_last()) * 10 + (s.last() as int - '0' as int)
    }
}

/// A piece without its optional leading `+`.
pub open spec fn unsigned_digits(p: Seq<char>) -> Seq<char> {
    if p.len() > 0 && p[0] == '+' {
        p.drop_first()
    } else {
        p
    }
}

/// The number a piece spells: an optional `+`, then one or more decimal
/// digits, of a value that fits in `usize`.
pub open spec fn piece_value(p: Seq<char>) -> Option<int> {
    let d = unsigned_digits(p);
    if d.len() > 0 && (forall|i: int| 0 <= i < d.len() ==> is_digit(#[trigger] d[i]))
        && digits_value(d) <= usize::MAX {
        Some(digits_value(d))
    } else {
        None
    }
}

/// `s` cut at every comma; the commas themselves are dropped.
pub open spec fn split_commas(s: Seq<char>) -> Seq<Seq<char>>
    decreases s.len(),
{
    if s.len() == 0 {
        seq![Seq::empty()]
    } else {
        let init = split_commas(s.drop_last());
        if s.last() == ',' {
            init.push(Seq::empty())
        } else {
            init.update(init.len() - 1, init.last().push(s.last()))
        }
    }
}

proof fn lemma_split_nonempty(s: Seq<char>)
    ensures
        split_commas(s).len() >= 1,
    decreases s.len(),
{
    if s.len() > 0 {
        lemma_split_nonempty(s.drop_last());
    }
}

proof fn lemma_digits_nonneg(s: Seq<char>)
    requires
        forall|i: int| 0 <= i < s.len() ==> is_digit(#[trigger] s[i]),
    ensures
        digits_value(s) >= 0,
    decreases s.len(),
{
    if s.len() > 0 {
        lemma_digits_nonneg(s.drop_last());
    }
}

/// Component `k` of the skip position: the value of piece `k`, or 0 where the
/// list is shorter.
pub open spec fn component(values: Seq<int>, k: int) -> int {
    if k < values.len() {
        values[k]
    } else {
        0
    }
}

/// The skip position that the text `s` gives: an empty text is the
/// start of the match; otherwise every comma-separated piece must be a number,
/// and the first three give round, kyoku and honba, missing ones being 0.
pub open spec fn skip_position(s: Seq<char>) -> Result<RoundPosition, SkipError> {
    let pieces = split_commas(s);
    if s.len() == 0 {
        Ok(RoundPosition { round: 0, kyoku: 0, honba: 0 })
    } else if forall|k: int| 0 <= k < pieces.len() ==> #[trigger] piece_value(pieces[k]) is Some {
        let values = pieces.map_values(|p: Seq<char>| piece_value(p)->Some_0);
        Ok(
            RoundPosition {
                round: component(values, 0) as usize,
                kyoku: component(values, 1) as usize,
                honba: component(values, 2) as usize,
            },
        )
    } else {
        Err(SkipError::InvalidNumber)
    }
}

/// Reads one piece of a skip position as a number.
pub fn parse_number(p: &[char]) -> (r: Option<usize>)
    ensures
        r matches Some(v) ==> piece_value(p@) == Some(v as int),
        r is None ==> piece_value(p@) is None,
{
    let n = p.len();
    let start: usize = if n > 0 && p[0] == '+' {
        1
    } else {
        0
    };
    let ghost d = unsigned_digits(p@);
    assert(d =~= p@.subrange(start as int, n as int));
    if start == n {
        return None;
    }
    let mut cur: u128 = 0;
    let mut over = false;
    let mut i: usize = start;
    while i < n
        invariant
            start <= i <= n,
            n == p@.len(),
            d == p@.subrange(start as int, n as int),
            d == unsigned_digits(p@),
            forall|k: int| 0 <= k < i - start ==> is_digit(#[trigger] d[k]),
            !over ==> cur == digits_value(d.take(i - start)) && cur <= usize::MAX,
            over ==> digits_value(d.take(i - start)) > usize::MAX,
        decreases n - i,
    {
        let b = p[i];
        if b < '0' || b > '9' {
            assert(!is_digit(d[i - start]));
            assert(unsigned_digits(p@)[i - start] == b);
            return None;
        }
        let ghost pre = d.take(i - start);
        assert(d.take(i - start + 1).drop_last() =~= pre);
        proof {
            lemma_digits_nonneg(pre);
        }
        if !over {
            let next: u128 = cur * 10 + (b as u32 - '0' as u32) as u128;
            if next > usize::MAX as u128 {
                over = true;
            } else {
                cur = next;
            }
        }
        i = i + 1;
    }
    assert(d.take(n - start) =~= d);
    if over {
        None
    } else {
        Some(cur as usize)
    }
}

/// The characters of `s`, in order.
pub fn chars_of(s: &str) -> (r: Vec<char>)
    ensures
        r@ == s@,
{
    let mut out: Vec<char> = Vec::new();
    let n = s.unicode_len();
    let mut i: usize = 0;
    while i < n
        invariant
            i <= n,
            n == s@.len(),
            out@ == s@.take(i as int),
        decreases n - i,
    {
        out.push(s.get_char(i));
        assert(out@ =~= s@.take(i + 1));
        i = i + 1;
    }
    assert(s@.take(n as int) =~= s@);
    out
}

/// Cuts `s` at every comma.
pub fn split_pieces(s: &str) -> (r: Vec<Vec<char>>)
    ensures
        r@.map_values(|v: Vec<char>| v@) == split_commas(s@),
{
    let mut pieces: Vec<Vec<char>> = Vec::new();
    let mut cur: Vec<char> = Vec::new();
    let mut i: usize = 0;
    let n = s.unicode_len();
    while i < n
        invariant
            i <= s@.len(),
            n == s@.len(),
            pieces@.map_values(|v: Vec<char>| v@).push(cur@) == split_commas(s@.take(i as int)),
        decreases s@.len() - i,
    {
        let ghost before = split_commas(s@.take(i as int));
        assert(s@.take(i + 1).drop_last() =~= s@.take(i as int));
        let c = s.get_char(i);
        if c == ',' {
            let done = cur;
            pieces.push(done);
            cur = Vec::new();
            assert(pieces@.map_values(|v: Vec<char>| v@).push(cur@) =~= before.push(Seq::empty()));
        } else {
            cur.push(c);
            assert(pieces@.map_values(|v: Vec<char>| v@).push(cur@) =~= before.update(
                before.len() - 1,
                before.last().push(s@[i as int]),
            ));
        }
        i = i + 1;
    }
    assert(s@.take(s@.len() as int) =~= s@);
    pieces.push(cur);
    pieces
}

/// Reads a skip position from text such as `1,2` or `0,3,1`.
pub fn parse_skip(s: &str) -> (r: Result<RoundPosition, SkipError>)
    ensures
        r == skip_position(s@),
{
    if s.unicode_len() == 0 {
        return Ok(RoundPosition { round: 0, kyoku: 0, honba: 0 });
    }
    let pieces = split_pieces(s);
    let ghost ps = split_commas(s@);
    proof {
        lemma_split_nonempty(s@);
    }
    assert(pieces@.len() == ps.len());
    let mut values: Vec<usize> = Vec::new();
    let mut k: usize = 0;
    while k < pieces.len()
        invariant
            k <= pieces@.len(),
            pieces@.map_values(|v: Vec<char>| v@) == ps,
            ps == split_commas(s@),
            s@.len() > 0,
            values@.len() == k,
            forall|j: int| 0 <= j < k ==> piece_value(ps[j]) == Some(#[trigger] values@[j] as int),
        decreases pieces@.len() - k,
    {
        assert(ps[k as int] == pieces@[k as int]@);
        match parse_number(pieces[k].as_slice()) {
            Some(v) => values.push(v),
            None => {
                assert(piece_value(ps[k as int]) is None);
                return Err(SkipError::InvalidNumber);
            },
        }
        k = k + 1;
    }
    assert forall|j: int| 0 <= j < ps.len() implies #[trigger] piece_value(ps[j]) is Some by {
        assert(piece_value(ps[j]) == Some(values@[j] as int));
    }
    let ghost vals = ps.map_values(|p: Seq<char>| piece_value(p)->Some_0);
    assert forall|j: int| 0 <= j < values@.len() implies vals[j] == values@[j] as int by {
        assert(piece_value(ps[j]) == Some(values@[j] as int));
    }
    assert(vals.len() == values@.len());
    let round = if values.len() > 0 { values[0] } else { 0 };
    let kyoku = if values.len() > 1 { values[1] } else { 0 };
    let honba = if values.len() > 2 { values[2] } else { 0 };
    Ok(RoundPosition { round, kyoku, honba })
}

} // verus!
