//! Character-level text model: whitespace, line splitting, trimming,
//! tokenization and grapheme-aware length measurement.
//!
//! The specification side works on `Seq<char>` views; the executable side
//! scans `&str` values with the character accessors of vstd.

use vstd::prelude::*;
use unicode_segmentation::UnicodeSegmentation;

verus! {

/// A character of the Unicode `White_Space` class: the separator set used
/// both for trimming a line and for splitting it into tokens.
pub open spec fn is_ws(c: char) -> bool {
    let u = c as u32;
    ||| u == 0x09
    ||| u == 0x0A
    ||| u == 0x0B
    ||| u == 0x0C
    ||| u == 0x0D
    ||| u == 0x20
    ||| u == 0x85
    ||| u == 0xA0
    ||| u == 0x1680
    ||| (0x2000 <= u && u <= 0x200A)
    ||| u == 0x2028
    ||| u == 0x2029
    ||| u == 0x202F
    ||| u == 0x205F
    ||| u == 0x3000
}

/// Runtime test for [`is_ws`].
pub fn is_whitespace_char(c: char) -> (r: bool)
    ensures
        r == is_ws(c),
{
    let u = c as u32;
    u == 0x09 || u == 0x0A || u == 0x0B || u == 0x0C || u == 0x0D || u == 0x20 || u == 0x85
        || u == 0xA0 || u == 0x1680 || (0x2000 <= u && u <= 0x200A) || u == 0x2028 || u == 0x2029
        || u == 0x202F || u == 0x205F || u == 0x3000
}

/// The predicate "is a newline", as a first-class spec closure.
pub open spec fn nl_pred() -> spec_fn(char) -> bool {
    |c: char| c == '\n'
}

/// The predicate "is whitespace", as a first-class spec closure.
pub open spec fn ws_pred() -> spec_fn(char) -> bool {
    |c: char| is_ws(c)
}

/// The predicate "is not whitespace", as a first-class spec closure.
pub open spec fn non_ws_pred() -> spec_fn(char) -> bool {
    |c: char| !is_ws(c)
}

/// Index of the first character of `s` satisfying `p`, or `s.len()` if none does.
pub open spec fn first_where(s: Seq<char>, p: spec_fn(char) -> bool) -> int
    decreases s.len(),
{
    if s.len() == 0 {
        0
    } else if p(s[0]) {
        0
    } else {
        1 + first_where(s.drop_first(), p)
    }
}

/// `first_where` lies between `0` and `s.len()`, no character before it
/// satisfies `p`, and the character at it (if any) does.
pub proof fn lemma_first_where_bounds(s: Seq<char>, p: spec_fn(char) -> bool)
    ensures
        0 <= first_where(s, p) <= s.len(),
        forall|j: int| 0 <= j < first_where(s, p) ==> !p(s[j]),
        first_where(s, p) < s.len() ==> p(s[first_where(s, p)]),
    decreases s.len(),
{
    if s.len() == 0 {
    } else if p(s[0]) {
    } else {
        lemma_first_where_bounds(s.drop_first(), p);
        assert forall|j: int| 0 <= j < first_where(s, p) implies !p(s[j]) by {
            if j > 0 {
                assert(s.drop_first()[j - 1] == s[j]);
            }
        }
        if first_where(s, p) < s.len() {
            assert(s.drop_first()[first_where(s, p) - 1] == s[first_where(s, p)]);
        }
    }
}

/// Any index with the three characteristic properties equals `first_where`.
pub proof fn lemma_first_where_at(s: Seq<char>, p: spec_fn(char) -> bool, a: int)
    requires
        0 <= a <= s.len(),
        forall|j: int| 0 <= j < a ==> !p(s[j]),
        a < s.len() ==> p(s[a]),
    ensures
        first_where(s, p) == a,
    decreases s.len(),
{
    if s.len() == 0 {
    } else if p(s[0]) {
        assert(a == 0);
    } else {
        assert(a > 0) by {
            if a == 0 {
                assert(p(s[0]));
            }
        }
        assert forall|j: int| 0 <= j < a - 1 implies !p(s.drop_first()[j]) by {
            assert(s.drop_first()[j] == s[j + 1]);
        }
        if a - 1 < s.drop_first().len() {
            assert(s.drop_first()[a - 1] == s[a]);
        }
        lemma_first_where_at(s.drop_first(), p, a - 1);
    }
}

/// Index of the first newline of `s`, or `s.len()` if there is none.
pub open spec fn first_nl(s: Seq<char>) -> int {
    first_where(s, nl_pred())
}

/// Index of the first whitespace character of `s`, or `s.len()` if none.
pub open spec fn first_ws(s: Seq<char>) -> int {
    first_where(s, ws_pred())
}

/// Length of the run of whitespace at the start of `s`, that is, the index
/// of the first non-whitespace character (or `s.len()` if all whitespace).
pub open spec fn ws_run(s: Seq<char>) -> int {
    first_where(s, non_ws_pred())
}

/// Index of the last non-whitespace character of `s`, or `-1` if there is none.
pub open spec fn last_non_ws(s: Seq<char>) -> int
    decreases s.len(),
{
    if s.len() == 0 {
        -1
    } else if !is_ws(s.last()) {
        s.len() - 1
    } else {
        last_non_ws(s.drop_last())
    }
}

/// `last_non_ws` lies between `-1` and `s.len() - 1`, everything after it is
/// whitespace, and the character at it (if any) is not.
pub proof fn lemma_last_non_ws_bounds(s: Seq<char>)
    ensures
        -1 <= last_non_ws(s) < s.len(),
        forall|j: int| last_non_ws(s) < j < s.len() ==> is_ws(s[j]),
        last_non_ws(s) >= 0 ==> !is_ws(s[last_non_ws(s)]),
    decreases s.len(),
{
    if s.len() == 0 {
    } else if !is_ws(s.last()) {
    } else {
        lemma_last_non_ws_bounds(s.drop_last());
        assert forall|j: int| last_non_ws(s) < j < s.len() implies is_ws(s[j]) by {
            if j < s.len() - 1 {
                assert(s.drop_last()[j] == s[j]);
            }
        }
        if last_non_ws(s) >= 0 {
            assert(s.drop_last()[last_non_ws(s)] == s[last_non_ws(s)]);
        }
    }
}

/// Any index with the characteristic properties equals `last_non_ws`.
pub proof fn lemma_last_non_ws_at(s: Seq<char>, b: int)
    requires
        -1 <= b < s.len(),
        forall|j: int| b < j < s.len() ==> is_ws(s[j]),
        b >= 0 ==> !is_ws(s[b]),
    ensures
        last_non_ws(s) == b,
    decreases s.len(),
{
    if s.len() == 0 {
    } else if !is_ws(s.last()) {
        assert(b == s.len() - 1);
    } else {
        assert(b < s.len() - 1);
        assert forall|j: int| b < j < s.drop_last().len() implies is_ws(s.drop_last()[j]) by {
            assert(s.drop_last()[j] == s[j]);
        }
        if b >= 0 {
            assert(s.drop_last()[b] == s[b]);
        }
        lemma_last_non_ws_at(s.drop_last(), b);
    }
}

/// `s` with leading and trailing whitespace removed.
pub open spec fn spec_trim(s: Seq<char>) -> Seq<char> {
    if ws_run(s) == s.len() {
        Seq::<char>::empty()
    } else {
        s.subrange(ws_run(s), last_non_ws(s) + 1)
    }
}

/// A non-empty trimmed sequence neither starts nor ends with whitespace.
pub proof fn lemma_trim_ends(s: Seq<char>)
    ensures
        spec_trim(s).len() == 0 || (!is_ws(spec_trim(s).first()) && !is_ws(spec_trim(s).last())),
{
    lemma_first_where_bounds(s, non_ws_pred());
    lemma_last_non_ws_bounds(s);
    if ws_run(s) < s.len() {
        assert(!is_ws(s[ws_run(s)]));
        assert(last_non_ws(s) >= ws_run(s)) by {
            if last_non_ws(s) < ws_run(s) {
                assert(is_ws(s[ws_run(s)]));
            }
        }
    }
}

/// The lines of `s`: the segments between newline characters, split on every
/// newline, so `n` newlines give `n + 1` lines (some possibly empty).
pub open spec fn spec_lines(s: Seq<char>) -> Seq<Seq<char>>
    decreases s.len(),
{
    let i = first_nl(s);
    if 0 <= i < s.len() {
        seq![s.subrange(0, i)] + spec_lines(s.skip(i + 1))
    } else {
        seq![s]
    }
}

/// Number of newline characters in `s`.
pub open spec fn nl_count(s: Seq<char>) -> nat
    decreases s.len(),
{
    if s.len() == 0 {
        0
    } else {
        (if s[0] == '\n' {
            1nat
        } else {
            0nat
        }) + nl_count(s.drop_first())
    }
}

/// A sequence without newlines has `nl_count` zero.
proof fn lemma_nl_count_zero(s: Seq<char>)
    requires
        forall|j: int| 0 <= j < s.len() ==> s[j] != '\n',
    ensures
        nl_count(s) == 0,
    decreases s.len(),
{
    if s.len() > 0 {
        assert forall|j: int| 0 <= j < s.drop_first().len() implies s.drop_first()[j] != '\n' by {
            assert(s.drop_first()[j] == s[j + 1]);
        }
        lemma_nl_count_zero(s.drop_first());
    }
}

/// Splitting at the first newline drops exactly one newline from the count.
proof fn lemma_nl_count_skip(s: Seq<char>, i: int)
    requires
        0 <= i < s.len(),
        forall|j: int| 0 <= j < i ==> s[j] != '\n',
        s[i] == '\n',
    ensures
        nl_count(s) == 1 + nl_count(s.skip(i + 1)),
    decreases i,
{
    if i == 0 {
        assert(s.drop_first() =~= s.skip(1));
    } else {
        assert forall|j: int| 0 <= j < i - 1 implies s.drop_first()[j] != '\n' by {
            assert(s.drop_first()[j] == s[j + 1]);
        }
        assert(s.drop_first()[i - 1] == s[i]);
        lemma_nl_count_skip(s.drop_first(), i - 1);
        assert(s.drop_first().skip(i) =~= s.skip(i + 1));
    }
}

/// The number of lines is the number of newlines plus one.
pub proof fn lemma_lines_len(s: Seq<char>)
    ensures
        spec_lines(s).len() == nl_count(s) + 1,
    decreases s.len(),
{
    lemma_first_where_bounds(s, nl_pred());
    let i = first_nl(s);
    if 0 <= i < s.len() {
        assert(nl_pred()(s[i]));
        assert forall|j: int| 0 <= j < i implies s[j] != '\n' by {
            assert(!nl_pred()(s[j]));
        }
        lemma_nl_count_skip(s, i);
        lemma_lines_len(s.skip(i + 1));
    } else {
        assert forall|j: int| 0 <= j < s.len() implies s[j] != '\n' by {
            assert(!nl_pred()(s[j]));
        }
        lemma_nl_count_zero(s);
    }
}

/// Peeling one line off `s` at the first newline position at or after `pos`.
pub proof fn lemma_lines_step(s: Seq<char>, pos: int, e: int)
    requires
        0 <= pos <= e <= s.len(),
        forall|j: int| pos <= j < e ==> s[j] != '\n',
        e < s.len() ==> s[e] == '\n',
    ensures
        e == s.len() ==> spec_lines(s.skip(pos)) =~= seq![s.subrange(pos, e)],
        e < s.len() ==> spec_lines(s.skip(pos)) =~= seq![s.subrange(pos, e)] + spec_lines(
            s.skip(e + 1),
        ),
{
    let u = s.skip(pos);
    assert forall|j: int| 0 <= j < e - pos implies !nl_pred()(u[j]) by {
        assert(u[j] == s[pos + j]);
    }
    if e < s.len() {
        assert(u[e - pos] == s[e]);
    }
    lemma_first_where_at(u, nl_pred(), e - pos);
    if e == s.len() {
        assert(u =~= s.subrange(pos, e));
    } else {
        assert(u.subrange(0, e - pos) =~= s.subrange(pos, e));
        assert(u.skip(e - pos + 1) =~= s.skip(e + 1));
        assert(spec_lines(u) == seq![u.subrange(0, e - pos)] + spec_lines(u.skip(e - pos + 1)));
    }
}

/// The whitespace-separated tokens of `s`, at most `k` of them: each split
/// consumes a maximal whitespace run, and the final token greedily takes
/// whatever remains (whitespace included).
pub open spec fn token_split(s: Seq<char>, k: nat) -> Seq<Seq<char>>
    decreases k,
{
    if s.len() == 0 {
        Seq::<Seq<char>>::empty()
    } else if k <= 1 {
        seq![s]
    } else {
        let e = first_ws(s);
        if 0 <= e < s.len() {
            seq![s.subrange(0, e)] + token_split(s.skip(e + ws_run(s.skip(e))), (k - 1) as nat)
        } else {
            seq![s]
        }
    }
}

/// Names the number of extended grapheme clusters of a character sequence:
/// the user-perceived length that the token-size cap is measured in.
pub uninterp spec fn grapheme_count(s: Seq<char>) -> nat;

/// Relies on `unicode_segmentation::UnicodeSegmentation::graphemes`, which
/// segments a string into extended grapheme clusters; the segmentation
/// depends on the characters alone.
#[verifier::external_body]
pub fn true_len(s: &str) -> (r: usize)
    ensures
        r as nat == grapheme_count(s@),
{
    s.graphemes(true).count()
}

/// Index of the first newline of `s` at or after `from`, or the length of
/// `s` if there is none.
pub fn find_newline(s: &str, from: usize) -> (r: usize)
    requires
        from <= s@.len(),
    ensures
        from <= r <= s@.len(),
        r - from == first_nl(s@.skip(from as int)),
        forall|j: int| from <= j < r ==> s@[j] != '\n',
        r < s@.len() ==> s@[r as int] == '\n',
{
    let n: usize = s.unicode_len();
    let mut i: usize = from;
    while i < n
        invariant
            from <= i <= n,
            n == s@.len(),
            forall|j: int| from <= j < i ==> s@[j] != '\n',
        ensures
            from <= i <= n,
            forall|j: int| from <= j < i ==> s@[j] != '\n',
            i < n ==> s@[i as int] == '\n',
        decreases n - i,
    {
        if s.get_char(i) == '\n' {
            break;
        }
        i = i + 1;
    }
    proof {
        let u = s@.skip(from as int);
        assert forall|j: int| 0 <= j < i - from implies !nl_pred()(u[j]) by {
            assert(u[j] == s@[from + j]);
        }
        if i < n {
            assert(u[i - from] == s@[i as int]);
        }
        lemma_first_where_at(u, nl_pred(), i - from);
    }
    i
}

/// Index of the first whitespace character of `s` at or after `from`, or
/// the length of `s` if there is none.
pub fn find_whitespace(s: &str, from: usize) -> (r: usize)
    requires
        from <= s@.len(),
    ensures
        from <= r <= s@.len(),
        r - from == first_ws(s@.skip(from as int)),
        forall|j: int| from <= j < r ==> !is_ws(s@[j]),
        r < s@.len() ==> is_ws(s@[r as int]),
{
    let n: usize = s.unicode_len();
    let mut i: usize = from;
    while i < n
        invariant
            from <= i <= n,
            n == s@.len(),
            forall|j: int| from <= j < i ==> !is_ws(s@[j]),
        ensures
            from <= i <= n,
            forall|j: int| from <= j < i ==> !is_ws(s@[j]),
            i < n ==> is_ws(s@[i as int]),
        decreases n - i,
    {
        if is_whitespace_char(s.get_char(i)) {
            break;
        }
        i = i + 1;
    }
    proof {
        let u = s@.skip(from as int);
        assert forall|j: int| 0 <= j < i - from implies !ws_pred()(u[j]) by {
            assert(u[j] == s@[from + j]);
        }
        if i < n {
            assert(u[i - from] == s@[i as int]);
        }
        lemma_first_where_at(u, ws_pred(), i - from);
    }
    i
}

/// Index of the first non-whitespace character of `s` at or after `from`,
/// or the length of `s` if there is none.
pub fn skip_whitespace(s: &str, from: usize) -> (r: usize)
    requires
        from <= s@.len(),
    ensures
        from <= r <= s@.len(),
        r - from == ws_run(s@.skip(from as int)),
        forall|j: int| from <= j < r ==> is_ws(s@[j]),
        r < s@.len() ==> !is_ws(s@[r as int]),
{
    let n: usize = s.unicode_len();
    let mut i: usize = from;
    while i < n
        invariant
            from <= i <= n,
            n == s@.len(),
            forall|j: int| from <= j < i ==> is_ws(s@[j]),
        ensures
            from <= i <= n,
            forall|j: int| from <= j < i ==> is_ws(s@[j]),
            i < n ==> !is_ws(s@[i as int]),
        decreases n - i,
    {
        if !is_whitespace_char(s.get_char(i)) {
            break;
        }
        i = i + 1;
    }
    proof {
        let u = s@.skip(from as int);
        assert forall|j: int| 0 <= j < i - from implies !non_ws_pred()(u[j]) by {
            assert(u[j] == s@[from + j]);
        }
        if i < n {
            assert(u[i - from] == s@[i as int]);
        }
        lemma_first_where_at(u, non_ws_pred(), i - from);
    }
    i
}

/// The slice of `s` with leading and trailing whitespace removed.
pub fn trim_str(s: &str) -> (r: &str)
    ensures
        r@ == spec_trim(s@),
{
    let n: usize = s.unicode_len();
    let a: usize = skip_whitespace(s, 0);
    proof {
        assert(s@.skip(0) =~= s@);
    }
    if a == n {
        let r = s.substring_char(0, 0);
        proof {
            assert(r@ =~= spec_trim(s@));
        }
        return r;
    }
    let mut b: usize = n - 1;
    while b > a
        invariant
            a <= b < n,
            n == s@.len(),
            forall|j: int| b < j < n ==> is_ws(s@[j]),
        ensures
            a <= b < n,
            forall|j: int| b < j < n ==> is_ws(s@[j]),
            is_ws(s@[b as int]) ==> b == a,
        decreases b,
    {
        if !is_whitespace_char(s.get_char(b)) {
            break;
        }
        b = b - 1;
    }
    proof {
        assert(!is_ws(s@[a as int]));
        lemma_last_non_ws_at(s@, b as int);
    }
    let r = s.substring_char(a, b + 1);
    proof {
        assert(r@ =~= spec_trim(s@));
    }
    r
}

/// Number of newline characters of `s`, counted by a single scan.
pub fn count_newlines(s: &str) -> (r: usize)
    ensures
        r as nat == nl_count(s@),
{
    let n: usize = s.unicode_len();
    let mut i: usize = 0;
    let mut count: usize = 0;
    proof {
        assert(s@.skip(0) =~= s@);
    }
    while i < n
        invariant
            0 <= i <= n,
            n == s@.len(),
            count <= i,
            count + nl_count(s@.skip(i as int)) == nl_count(s@),
        decreases n - i,
    {
        proof {
            let u = s@.skip(i as int);
            assert(u.len() > 0);
            assert(u[0] == s@[i as int]);
            assert(u.drop_first() =~= s@.skip(i + 1));
        }
        if s.get_char(i) == '\n' {
            count = count + 1;
        }
        i = i + 1;
    }
    proof {
        assert(s@.skip(n as int) =~= Seq::<char>::empty());
        assert(nl_count(s@.skip(n as int)) == 0);
    }
    count
}

/// Number of lines of `s`: the segments produced by splitting on every
/// newline character, so one more than the newline count.
pub fn number_of_lines(s: &str) -> (r: usize)
    requires
        s@.len() < usize::MAX,
    ensures
        r as nat == spec_lines(s@).len(),
{
    proof {
        lemma_lines_len(s@);
        lemma_nl_count_le(s@);
    }
    let c = count_newlines(s);
    c + 1
}

/// `nl_count` never exceeds the length of the sequence.
proof fn lemma_nl_count_le(s: Seq<char>)
    ensures
        nl_count(s) <= s.len(),
    decreases s.len(),
{
    if s.len() > 0 {
        lemma_nl_count_le(s.drop_first());
    }
}

} // verus!
