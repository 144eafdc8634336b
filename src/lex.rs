use vstd::prelude::*;

verus! {

/// Whitespace that may separate tokens.
pub open spec fn is_ws(c: char) -> bool {
    c == ' ' || c == '\t' || c == '\n' || c == '\r'
}

/// Characters that make up a symbol token.
pub open spec fn is_alnum(c: char) -> bool {
    ('a' <= c && c <= 'z') || ('A' <= c && c <= 'Z') || ('0' <= c && c <= '9')
}

pub open spec fn is_digit(c: char) -> bool {
    '0' <= c && c <= '9'
}

pub open spec fn all_digits(t: Seq<char>) -> bool {
    forall|j: int| 0 <= j < t.len() ==> is_digit(#[trigger] t[j])
}

/// Value of a string of decimal digits.
pub open spec fn decimal(t: Seq<char>) -> nat
    decreases t.len(),
{
    if t.len() == 0 {
        0
    } else {
        decimal(t.drop_last()) * 10 + ((t.last() as u32) - 48) as nat
    }
}

/// First index `j >= k` at which `*/` starts, or -1 when there is none.
pub open spec fn block_close(s: Seq<char>, k: int) -> int
    decreases s.len() - k,
{
    if k < 0 || k + 1 >= s.len() {
        -1
    } else if s[k] == '*' && s[k + 1] == '/' {
        k
    } else {
        block_close(s, k + 1)
    }
}

/// First index `j >= k` holding a newline, or the length of `s`.
pub open spec fn line_end(s: Seq<char>, k: int) -> int
    decreases s.len() - k,
{
    if k < 0 || k >= s.len() {
        s.len() as int
    } else if s[k] == '\n' {
        k
    } else {
        line_end(s, k + 1)
    }
}

/// Where a run of whitespace, `/* block */` and `// line` comments that starts at `i` ends.
/// An unterminated block comment is not skipped.
pub open spec fn space_end(s: Seq<char>, i: int) -> int
    decreases s.len() - i,
{
    if i < 0 || i >= s.len() {
        i
    } else if is_ws(s[i]) {
        space_end(s, i + 1)
    } else if i + 1 < s.len() && s[i] == '/' && s[i + 1] == '*' {
        let j = block_close(s, i + 2);
        if i < j && j + 2 <= s.len() {
            space_end(s, j + 2)
        } else {
            i
        }
    } else if i + 1 < s.len() && s[i] == '/' && s[i + 1] == '/' {
        let j = line_end(s, i + 2);
        if i < j && j <= s.len() {
            space_end(s, j)
        } else {
            i
        }
    } else {
        i
    }
}

/// Where the run of symbol characters that starts at `i` ends.
pub open spec fn alnum_end(s: Seq<char>, i: int) -> int
    decreases s.len() - i,
{
    if i < 0 || i >= s.len() || !is_alnum(s[i]) {
        i
    } else {
        alnum_end(s, i + 1)
    }
}

pub fn is_ws_char(c: char) -> (r: bool)
    ensures
        r == is_ws(c),
{
    c == ' ' || c == '\t' || c == '\n' || c == '\r'
}

pub fn is_alnum_char(c: char) -> (r: bool)
    ensures
        r == is_alnum(c),
{
    ('a' <= c && c <= 'z') || ('A' <= c && c <= 'Z') || ('0' <= c && c <= '9')
}

/// The characters of `s`, in order.
pub fn chars_of(s: &str) -> (r: Vec<char>)
    ensures
        r@ == s@,
{
    let n = s.unicode_len();
    let mut r: Vec<char> = Vec::new();
    let mut i: usize = 0;
    while i < n
        invariant
            n == s@.len(),
            i <= n,
            r@ == s@.subrange(0, i as int),
        decreases n - i,
    {
        r.push(s.get_char(i));
        i += 1;
        assert(r@ =~= s@.subrange(0, i as int));
    }
    assert(r@ =~= s@);
    r
}

proof fn lemma_block_close_bounds(s: Seq<char>, k: int)
    ensures
        block_close(s, k) == -1 || (k <= block_close(s, k) && block_close(s, k) + 1 < s.len()),
    decreases s.len() - k,
{
    if k >= 0 && k + 1 < s.len() && !(s[k] == '*' && s[k + 1] == '/') {
        lemma_block_close_bounds(s, k + 1);
    }
}

proof fn lemma_line_end_bounds(s: Seq<char>, k: int)
    requires
        0 <= k,
    ensures
        k <= line_end(s, k) <= s.len() || (k > s.len() && line_end(s, k) == s.len()),
    decreases s.len() - k,
{
    if k < s.len() && s[k] != '\n' {
        lemma_line_end_bounds(s, k + 1);
    }
}

/// Skips whitespace and comments starting at `i`.
pub fn skip_space(s: &Vec<char>, i: usize) -> (r: usize)
    requires
        i <= s@.len(),
    ensures
        r == space_end(s@, i as int),
        i <= r <= s@.len(),
{
    let n = s.len();
    let mut p = i;
    loop
        invariant
            n == s@.len(),
            i <= p <= n,
            space_end(s@, p as int) == space_end(s@, i as int),
        decreases n - p,
    {
        if p >= n {
            return p;
        }
        let c = s[p];
        if is_ws_char(c) {
            p = p + 1;
        } else if p + 1 < n && c == '/' && s[p + 1] == '*' {
            let mut k = p + 2;
            loop
                invariant
                    n == s@.len(),
                    p + 2 <= k <= n,
                    p + 1 < n,
                    s@[p as int] == '/' && s@[p + 1] == '*',
                    block_close(s@, k as int) == block_close(s@, p + 2),
                    space_end(s@, p as int) == space_end(s@, i as int),
                    i <= p,
                ensures
                    k + 1 < n,
                    s@[k as int] == '*' && s@[k + 1] == '/',
                    block_close(s@, k as int) == block_close(s@, p + 2),
                decreases n - k,
            {
                if k >= n - 1 {
                    return p;
                }
                if s[k] == '*' && s[k + 1] == '/' {
                    break;
                }
                k = k + 1;
            }
            p = k + 2;
        } else if p + 1 < n && c == '/' && s[p + 1] == '/' {
            let mut k = p + 2;
            loop
                invariant
                    n == s@.len(),
                    p + 2 <= k <= n,
                    line_end(s@, k as int) == line_end(s@, p + 2),
                ensures
                    p + 2 <= k <= n,
                    k >= n || s@[k as int] == '\n',
                    line_end(s@, k as int) == line_end(s@, p + 2),
                decreases n - k,
            {
                if k >= n || s[k] == '\n' {
                    break;
                }
                k = k + 1;
            }
            p = k;
        } else {
            return p;
        }
    }
}

/// Skips symbol characters starting at `i`.
pub fn skip_alnum(s: &Vec<char>, i: usize) -> (r: usize)
    requires
        i <= s@.len(),
    ensures
        r == alnum_end(s@, i as int),
        i <= r <= s@.len(),
        forall|j: int| i <= j < r ==> is_alnum(#[trigger] s@[j]),
{
    let mut p = i;
    while p < s.len() && is_alnum_char(s[p])
        invariant
            i <= p <= s@.len(),
            alnum_end(s@, p as int) == alnum_end(s@, i as int),
            forall|j: int| i <= j < p ==> is_alnum(#[trigger] s@[j]),
        decreases s@.len() - p,
    {
        p = p + 1;
    }
    p
}

proof fn lemma_decimal_prefix(t: Seq<char>, k: int)
    requires
        0 <= k <= t.len(),
    ensures
        decimal(t.subrange(0, k)) <= decimal(t),
    decreases t.len(),
{
    if k < t.len() {
        assert(t.drop_last().subrange(0, k) =~= t.subrange(0, k));
        lemma_decimal_prefix(t.drop_last(), k);
    } else {
        assert(t.subrange(0, k) =~= t);
    }
}

/// The value of the digits `s[a..b]` when they are all decimal digits, the run is not
/// empty and the value is at most `max`.
pub fn parse_decimal(s: &Vec<char>, a: usize, b: usize, max: usize) -> (r: Option<usize>)
    requires
        a <= b <= s@.len(),
    ensures
        r == (if a < b && all_digits(s@.subrange(a as int, b as int)) && decimal(
            s@.subrange(a as int, b as int),
        ) <= max {
            Some(decimal(s@.subrange(a as int, b as int)) as usize)
        } else {
            None::<usize>
        }),
{
    if a == b {
        return None;
    }
    let ghost t = s@.subrange(a as int, b as int);
    let mut acc: usize = 0;
    let mut p = a;
    while p < b
        invariant
            a <= p <= b <= s@.len(),
            t == s@.subrange(a as int, b as int),
            all_digits(s@.subrange(a as int, p as int)),
            acc == decimal(s@.subrange(a as int, p as int)),
            acc <= max,
        decreases b - p,
    {
        let c = s[p];
        if !('0' <= c && c <= '9') {
            assert(!is_digit(t[p - a]));
            return None;
        }
        let d = (c as u32 - 48) as usize;
        let ghost next = s@.subrange(a as int, p + 1);
        assert(next.drop_last() =~= s@.subrange(a as int, p as int));
        assert(decimal(next) == acc * 10 + d);
        if d > max || acc > (max - d) / 10 {
            assert(acc * 10 + d > max) by (nonlinear_arith)
                requires
                    d > max || acc > (max - d) / 10,
            ;
            proof {
                assert(next =~= t.subrange(0, p + 1 - a));
                if all_digits(t) {
                    lemma_decimal_prefix(t, p + 1 - a);
                }
            }
            return None;
        }
        assert(acc * 10 + d <= max) by (nonlinear_arith)
            requires
                acc <= (max - d) / 10,
                d <= 9,
        ;
        acc = acc * 10 + d;
        p = p + 1;
        assert(all_digits(s@.subrange(a as int, p as int))) by {
            assert forall|j: int| 0 <= j < next.len() implies is_digit(#[trigger] next[j]) by {
                if j < next.len() - 1 {
                    assert(next[j] == s@.subrange(a as int, p - 1)[j]);
                }
            }
        }
    }
    assert(s@.subrange(a as int, p as int) =~= t);
    Some(acc)
}

} // verus!
