use vstd::prelude::*;

verus! {

broadcast use vstd::string::group_string_axioms;

// ---------------------------------------------------------------------------
// Characters
// ---------------------------------------------------------------------------

/// Unicode `White_Space`: the characters `char::is_whitespace` accepts.
pub open spec fn is_space(c: char) -> bool {
    let u = c as u32;
    ||| 0x09 <= u <= 0x0D
    ||| u == 0x20
    ||| u == 0x85
    ||| u == 0xA0
    ||| u == 0x1680
    ||| 0x2000 <= u <= 0x200A
    ||| u == 0x2028
    ||| u == 0x2029
    ||| u == 0x202F
    ||| u == 0x205F
    ||| u == 0x3000
}

pub fn is_space_char(c: char) -> (b: bool)
    ensures
        b == is_space(c),
{
    let u = c as u32;
    (0x09 <= u && u <= 0x0D) || u == 0x20 || u == 0x85 || u == 0xA0 || u == 0x1680 || (0x2000
        <= u && u <= 0x200A) || u == 0x2028 || u == 0x2029 || u == 0x202F || u == 0x205F || u
        == 0x3000
}

pub open spec fn is_ascii_digit(c: char) -> bool {
    '0' <= c <= '9'
}

pub open spec fn digit_value(c: char) -> int {
    (c as u32) - ('0' as u32)
}

/// The character of a decimal digit `0 <= d < 10`.
pub open spec fn digit_char(d: int) -> char {
    if d == 0 {
        '0'
    } else if d == 1 {
        '1'
    } else if d == 2 {
        '2'
    } else if d == 3 {
        '3'
    } else if d == 4 {
        '4'
    } else if d == 5 {
        '5'
    } else if d == 6 {
        '6'
    } else if d == 7 {
        '7'
    } else if d == 8 {
        '8'
    } else {
        '9'
    }
}

// ---------------------------------------------------------------------------
// Conversions between `str`, `String` and characters
// ---------------------------------------------------------------------------

/// The characters of a string slice, in order.
pub fn chars_of(s: &str) -> (v: Vec<char>)
    ensures
        v@ == s@,
{
    let mut out: Vec<char> = Vec::new();
    for c in iter: s.chars()
        invariant
            out@ == iter.seq().take(iter.index() as int),
    {
        out.push(c);
    }
    assert(out@ =~= s@);
    out
}

/// Appends one character (`String::push`).
#[verifier::external_body]
pub(crate) fn push_char(s: &mut String, c: char)
    ensures
        final(s)@ == old(s)@.push(c),
{
    s.push(c);
}

/// The texts of a list of strings.
pub open spec fn texts_of(s: Seq<String>) -> Seq<Seq<char>> {
    Seq::new(s.len(), |i: int| s[i]@)
}

/// A string holding exactly the characters `cs[from..to]`.
pub fn string_from_range(cs: &Vec<char>, from: usize, to: usize) -> (r: String)
    requires
        from <= to <= cs@.len(),
    ensures
        r@ == cs@.subrange(from as int, to as int),
{
    let mut out = String::new();
    let mut i = from;
    while i < to
        invariant
            from <= i <= to <= cs@.len(),
            out@ == cs@.subrange(from as int, i as int),
        decreases to - i,
    {
        push_char(&mut out, cs[i]);
        i += 1;
        assert(out@ =~= cs@.subrange(from as int, i as int));
    }
    out
}

/// A string holding exactly the characters of `cs`.
pub fn string_from_chars(cs: &Vec<char>) -> (r: String)
    ensures
        r@ == cs@,
{
    let r = string_from_range(cs, 0, cs.len());
    assert(cs@.subrange(0, cs@.len() as int) =~= cs@);
    r
}

/// A copy of a string slice.
pub fn string_of(s: &str) -> (r: String)
    ensures
        r@ == s@,
{
    let cs = chars_of(s);
    string_from_chars(&cs)
}

/// `a` followed by `b`.
pub fn concat(a: &str, b: &str) -> (r: String)
    ensures
        r@ == a@ + b@,
{
    let mut out = string_of(a);
    let cs = chars_of(b);
    let mut i: usize = 0;
    while i < cs.len()
        invariant
            i <= cs@.len(),
            cs@ == b@,
            out@ == a@ + cs@.take(i as int),
        decreases cs@.len() - i,
    {
        push_char(&mut out, cs[i]);
        i += 1;
        assert(out@ =~= a@ + cs@.take(i as int));
    }
    assert(cs@.take(cs@.len() as int) =~= cs@);
    out
}

/// Equality of two string slices, character by character.
pub fn str_eq(a: &str, b: &str) -> (r: bool)
    ensures
        r == (a@ == b@),
{
    let x = chars_of(a);
    let y = chars_of(b);
    chars_eq(&x, &y)
}

pub fn chars_eq(x: &Vec<char>, y: &Vec<char>) -> (r: bool)
    ensures
        r == (x@ == y@),
{
    if x.len() != y.len() {
        return false;
    }
    let mut i: usize = 0;
    while i < x.len()
        invariant
            x@.len() == y@.len(),
            i <= x@.len(),
            forall|k: int| 0 <= k < i ==> x@[k] == y@[k],
        decreases x@.len() - i,
    {
        if x[i] != y[i] {
            return false;
        }
        i += 1;
    }
    assert(x@ =~= y@);
    true
}

// ---------------------------------------------------------------------------
// Whitespace: blank, trim, collapse
// ---------------------------------------------------------------------------

/// Every character is whitespace (so the string trims to nothing).
pub open spec fn all_space(s: Seq<char>) -> bool {
    forall|i: int| 0 <= i < s.len() ==> is_space(#[trigger] s[i])
}

pub open spec fn trim_start(s: Seq<char>) -> Seq<char>
    decreases s.len(),
{
    if s.len() > 0 && is_space(s[0]) {
        trim_start(s.drop_first())
    } else {
        s
    }
}

pub open spec fn trim_end(s: Seq<char>) -> Seq<char>
    decreases s.len(),
{
    if s.len() > 0 && is_space(s.last()) {
        trim_end(s.drop_last())
    } else {
        s
    }
}

/// `str::trim`: leading and trailing whitespace removed.
pub open spec fn trim(s: Seq<char>) -> Seq<char> {
    trim_end(trim_start(s))
}

pub proof fn lemma_trim_start_is_suffix(s: Seq<char>, k: int)
    requires
        0 <= k <= s.len(),
        forall|i: int| 0 <= i < k ==> is_space(#[trigger] s[i]),
        k == s.len() || !is_space(s[k]),
    ensures
        trim_start(s) == s.subrange(k, s.len() as int),
    decreases s.len(),
{
    if k == 0 {
        assert(s.subrange(0, s.len() as int) =~= s);
    } else {
        assert(is_space(s[0]));
        let t = s.drop_first();
        assert forall|i: int| 0 <= i < k - 1 implies is_space(#[trigger] t[i]) by {
            assert(t[i] == s[i + 1]);
        }
        if k - 1 < t.len() {
            assert(t[k - 1] == s[k]);
        }
        lemma_trim_start_is_suffix(t, k - 1);
        assert(t.subrange(k - 1, t.len() as int) =~= s.subrange(k, s.len() as int));
    }
}

pub proof fn lemma_trim_end_is_prefix(s: Seq<char>, k: int)
    requires
        0 <= k <= s.len(),
        forall|i: int| k <= i < s.len() ==> is_space(#[trigger] s[i]),
        k == 0 || !is_space(s[k - 1]),
    ensures
        trim_end(s) == s.subrange(0, k),
    decreases s.len(),
{
    if k == s.len() {
        assert(s.subrange(0, k) =~= s);
    } else {
        assert(is_space(s.last()));
        let t = s.drop_last();
        assert forall|i: int| k <= i < t.len() implies is_space(#[trigger] t[i]) by {
            assert(t[i] == s[i]);
        }
        if k > 0 {
            assert(t[k - 1] == s[k - 1]);
        }
        lemma_trim_end_is_prefix(t, k);
        assert(t.subrange(0, k) =~= s.subrange(0, k));
    }
}

/// A string trims to nothing exactly when it is all whitespace.
pub proof fn lemma_trim_empty_iff_all_space(s: Seq<char>)
    ensures
        (trim(s).len() == 0) <==> all_space(s),
    decreases s.len(),
{
    if s.len() > 0 && is_space(s[0]) {
        lemma_trim_empty_iff_all_space(s.drop_first());
        if all_space(s.drop_first()) {
            assert forall|i: int| 0 <= i < s.len() implies is_space(#[trigger] s[i]) by {
                if i > 0 {
                    assert(s[i] == s.drop_first()[i - 1]);
                }
            }
        }
        if all_space(s) {
            assert forall|i: int| 0 <= i < s.drop_first().len() implies is_space(
                #[trigger] s.drop_first()[i],
            ) by {
                assert(s.drop_first()[i] == s[i + 1]);
            }
        }
    } else if s.len() > 0 {
        // trim_start(s) == s and s[0] is not whitespace: trim_end keeps s[0].
        lemma_trim_end_keeps_first(s);
    }
}

proof fn lemma_trim_end_keeps_first(s: Seq<char>)
    requires
        s.len() > 0,
        !is_space(s[0]),
    ensures
        trim_end(s).len() > 0,
    decreases s.len(),
{
    if is_space(s.last()) {
        assert(s.len() > 1);
        assert(s.drop_last()[0] == s[0]);
        lemma_trim_end_keeps_first(s.drop_last());
    }
}

/// Whether the string is empty or all whitespace (`s.trim().is_empty()`).
pub fn is_blank(s: &str) -> (b: bool)
    ensures
        b == all_space(s@),
        b == (trim(s@).len() == 0),
{
    proof {
        lemma_trim_empty_iff_all_space(s@);
    }
    let cs = chars_of(s);
    let mut i: usize = 0;
    while i < cs.len()
        invariant
            cs@ == s@,
            i <= cs@.len(),
            forall|k: int| 0 <= k < i ==> is_space(#[trigger] cs@[k]),
        decreases cs@.len() - i,
    {
        if !is_space_char(cs[i]) {
            assert(!is_space(s@[i as int]));
            assert(!all_space(s@));
            proof {
                lemma_trim_empty_iff_all_space(s@);
            }
            return false;
        }
        i += 1;
    }
    true
}

/// `str::trim` on a sequence of characters, as bounds `[start, end)`.
pub fn trim_bounds(cs: &Vec<char>) -> (r: (usize, usize))
    ensures
        r.0 <= r.1 <= cs@.len(),
        cs@.subrange(r.0 as int, r.1 as int) == trim(cs@),
{
    let n = cs.len();
    let mut start: usize = 0;
    while start < n && is_space_char(cs[start])
        invariant
            n == cs@.len(),
            start <= n,
            forall|i: int| 0 <= i < start ==> is_space(#[trigger] cs@[i]),
        decreases n - start,
    {
        start += 1;
    }
    proof {
        lemma_trim_start_is_suffix(cs@, start as int);
    }
    let mut end: usize = n;
    while end > start && is_space_char(cs[end - 1])
        invariant
            n == cs@.len(),
            start <= end <= n,
            forall|i: int| end <= i < n ==> is_space(#[trigger] cs@[i]),
        decreases end,
    {
        end -= 1;
    }
    proof {
        let t = cs@.subrange(start as int, n as int);
        assert forall|i: int| end - start <= i < t.len() implies is_space(#[trigger] t[i]) by {
            assert(t[i] == cs@[start + i]);
        }
        if end > start {
            assert(t[end - start - 1] == cs@[end - 1]);
        }
        lemma_trim_end_is_prefix(t, end - start);
        assert(t.subrange(0, end - start) =~= cs@.subrange(start as int, end as int));
    }
    (start, end)
}

/// `s.trim().to_string()`.
pub fn trimmed(s: &str) -> (r: String)
    ensures
        r@ == trim(s@),
{
    let cs = chars_of(s);
    let (a, b) = trim_bounds(&cs);
    string_from_range(&cs, a, b)
}

/// Collapses whitespace the way `split_whitespace().collect::<Vec<_>>().join(" ")`
/// does: the non-whitespace runs of `s` appended to `acc`, one space between
/// runs, none before the first run of an empty `acc` and none at the end.
/// `gap` records a pending separator.
pub open spec fn collapse_into(acc: Seq<char>, gap: bool, s: Seq<char>) -> Seq<char>
    decreases s.len(),
{
    if s.len() == 0 {
        acc
    } else if is_space(s[0]) {
        collapse_into(acc, acc.len() > 0, s.drop_first())
    } else {
        let base = if gap {
            acc.push(' ')
        } else {
            acc
        };
        collapse_into(base.push(s[0]), false, s.drop_first())
    }
}

/// The words of `s` joined by single spaces.
pub open spec fn collapse(s: Seq<char>) -> Seq<char> {
    collapse_into(Seq::empty(), false, s)
}

/// Every whitespace character of `t` is an ASCII space that is neither the
/// last character nor followed by whitespace.
pub open spec fn single_spaced(t: Seq<char>) -> bool {
    forall|i: int|
        0 <= i < t.len() && #[trigger] is_space(t[i]) ==> t[i] == ' ' && i + 1 < t.len() && !is_space(t[i + 1])
}

/// Words joined by single ASCII spaces: no whitespace but single spaces
/// between words, none at either end.
pub open spec fn collapsed(t: Seq<char>) -> bool {
    single_spaced(t) && (t.len() > 0 ==> !is_space(t[0]))
}

proof fn lemma_collapse_into_collapsed(acc: Seq<char>, gap: bool, s: Seq<char>)
    requires
        collapsed(acc),
        gap ==> acc.len() > 0,
    ensures
        collapsed(collapse_into(acc, gap, s)),
    decreases s.len(),
{
    if s.len() > 0 {
        if is_space(s[0]) {
            lemma_collapse_into_collapsed(acc, acc.len() > 0, s.drop_first());
        } else {
            let base = if gap { acc.push(' ') } else { acc };
            let next = base.push(s[0]);
            assert(is_space(' '));
            assert(collapsed(next)) by {
                assert forall|i: int| 0 <= i < next.len() && #[trigger] is_space(next[i]) implies next[i] == ' '
                    && i + 1 < next.len() && !is_space(next[i + 1]) by {
                    if i < acc.len() {
                        assert(next[i] == acc[i]);
                        if i + 1 < acc.len() {
                            assert(next[i + 1] == acc[i + 1]);
                        }
                    } else if gap && i == acc.len() {
                        assert(next[i + 1] == s[0]);
                    } else {
                        assert(next[i] == s[0]);
                    }
                }
                if next.len() > 0 && acc.len() > 0 {
                    assert(next[0] == acc[0]);
                }
            }
            lemma_collapse_into_collapsed(next, false, s.drop_first());
        }
    }
}

proof fn lemma_collapse_into_keeps(acc: Seq<char>, gap: bool, t: Seq<char>)
    requires
        single_spaced(t),
        gap ==> acc.len() > 0 && t.len() > 0 && !is_space(t[0]),
        t.len() > 0 && is_space(t[0]) ==> acc.len() > 0 && !gap,
    ensures
        collapse_into(acc, gap, t) == (if gap { acc.push(' ') } else { acc }) + t,
    decreases t.len(),
{
    let rest = t.drop_first();
    if t.len() == 0 {
        assert(acc + t =~= acc);
    } else {
        assert(single_spaced(rest)) by {
            assert forall|i: int| 0 <= i < rest.len() && #[trigger] is_space(rest[i]) implies rest[i] == ' '
                && i + 1 < rest.len() && !is_space(rest[i + 1]) by {
                assert(rest[i] == t[i + 1]);
                assert(is_space(t[i + 1]));
            }
        }
        if is_space(t[0]) {
            assert(t[0] == ' ' && 1 < t.len() && !is_space(t[1]));
            assert(rest[0] == t[1]);
            lemma_collapse_into_keeps(acc, true, rest);
            assert(acc.push(' ') + rest =~= acc + t);
        } else {
            let base = if gap { acc.push(' ') } else { acc };
            if rest.len() > 0 && is_space(rest[0]) {
                assert(rest[0] == t[1]);
            }
            lemma_collapse_into_keeps(base.push(t[0]), false, rest);
            assert(base.push(t[0]) + rest =~= base + t);
        }
    }
}

/// Collapsing gives words joined by single ASCII spaces, and collapsing
/// again changes nothing.
pub proof fn lemma_collapse_idempotent(s: Seq<char>)
    ensures
        collapsed(collapse(s)),
        collapse(collapse(s)) == collapse(s),
{
    lemma_collapse_into_collapsed(Seq::empty(), false, s);
    let t = collapse(s);
    lemma_collapse_into_keeps(Seq::empty(), false, t);
    assert(Seq::<char>::empty() + t =~= t);
}

/// Joins the whitespace-separated words of `s` with single spaces.
pub fn collapse_spaces(s: &str) -> (r: String)
    ensures
        r@ == collapse(s@),
{
    let cs = chars_of(s);
    let mut out = String::new();
    let mut gap = false;
    let mut nonempty = false;
    let mut i: usize = 0;
    assert(cs@.subrange(0, cs@.len() as int) =~= cs@);
    while i < cs.len()
        invariant
            cs@ == s@,
            i <= cs@.len(),
            nonempty == (out@.len() > 0),
            collapse_into(out@, gap, cs@.subrange(i as int, cs@.len() as int)) == collapse(s@),
        decreases cs@.len() - i,
    {
        let ghost rest = cs@.subrange(i as int, cs@.len() as int);
        assert(rest[0] == cs@[i as int]);
        assert(rest.drop_first() =~= cs@.subrange(i + 1, cs@.len() as int));
        let c = cs[i];
        if is_space_char(c) {
            gap = nonempty;
        } else {
            if gap {
                push_char(&mut out, ' ');
            }
            push_char(&mut out, c);
            gap = false;
            nonempty = true;
        }
        i += 1;
    }
    assert(cs@.subrange(cs@.len() as int, cs@.len() as int) =~= Seq::<char>::empty());
    out
}

// ---------------------------------------------------------------------------
// Case
// ---------------------------------------------------------------------------

/// What `str::to_lowercase` returns for a string: its Unicode lowercase form
/// (mostly character by character, but a final capital sigma depends on what
/// surrounds it). Nothing more is stated of it.
pub uninterp spec fn lowercase(s: Seq<char>) -> Seq<char>;

/// `str::to_lowercase`.
#[verifier::external_body]
pub(crate) fn to_lowercase(s: &str) -> (r: String)
    ensures
        r@ == lowercase(s@),
{
    s.to_lowercase()
}

// ---------------------------------------------------------------------------
// Ordering of strings (`Ord for str`: by characters, lexicographically)
// ---------------------------------------------------------------------------

/// `a < b` for strings: the first differing character decides, a proper
/// prefix comes first.
pub open spec fn seq_lt(a: Seq<char>, b: Seq<char>) -> bool
    decreases a.len(),
{
    if a.len() == 0 {
        b.len() > 0
    } else if b.len() == 0 {
        false
    } else if a[0] != b[0] {
        a[0] < b[0]
    } else {
        seq_lt(a.drop_first(), b.drop_first())
    }
}

pub open spec fn seq_le(a: Seq<char>, b: Seq<char>) -> bool {
    seq_lt(a, b) || a == b
}

pub proof fn lemma_seq_lt_irreflexive(a: Seq<char>)
    ensures
        !seq_lt(a, a),
    decreases a.len(),
{
    if a.len() > 0 {
        lemma_seq_lt_irreflexive(a.drop_first());
    }
}

pub proof fn lemma_seq_lt_total(a: Seq<char>, b: Seq<char>)
    ensures
        seq_lt(a, b) || a == b || seq_lt(b, a),
    decreases a.len(),
{
    if a.len() > 0 && b.len() > 0 && a[0] == b[0] {
        lemma_seq_lt_total(a.drop_first(), b.drop_first());
        if a.drop_first() == b.drop_first() {
            assert(a =~= seq![a[0]] + a.drop_first());
            assert(b =~= seq![b[0]] + b.drop_first());
            assert(a =~= b);
        }
    } else if a.len() == 0 && b.len() == 0 {
        assert(a =~= b);
    } else if a.len() > 0 && b.len() > 0 {
        assert(a[0] != b[0]);
    }
}

pub proof fn lemma_seq_lt_asymmetric(a: Seq<char>, b: Seq<char>)
    ensures
        seq_lt(a, b) ==> !seq_lt(b, a),
    decreases a.len(),
{
    if a.len() > 0 && b.len() > 0 && a[0] == b[0] {
        lemma_seq_lt_asymmetric(a.drop_first(), b.drop_first());
    }
}

pub proof fn lemma_seq_lt_transitive(a: Seq<char>, b: Seq<char>, c: Seq<char>)
    requires
        seq_lt(a, b),
        seq_lt(b, c),
    ensures
        seq_lt(a, c),
    decreases a.len(),
{
    if a.len() > 0 && b.len() > 0 && c.len() > 0 && a[0] == b[0] && b[0] == c[0] {
        lemma_seq_lt_transitive(a.drop_first(), b.drop_first(), c.drop_first());
    }
}

/// Three-way comparison of two character sequences: negative, zero or
/// positive as `a` sorts before, equal to, or after `b`.
pub fn compare_chars(a: &Vec<char>, b: &Vec<char>) -> (r: i8)
    ensures
        (r < 0) == seq_lt(a@, b@),
        (r == 0) == (a@ == b@),
        (r > 0) == seq_lt(b@, a@),
{
    let mut i: usize = 0;
    assert(a@.skip(0) =~= a@);
    assert(b@.skip(0) =~= b@);
    while i < a.len() && i < b.len() && a[i] == b[i]
        invariant
            i <= a@.len(),
            i <= b@.len(),
            a@.take(i as int) == b@.take(i as int),
            seq_lt(a@, b@) == seq_lt(a@.skip(i as int), b@.skip(i as int)),
            seq_lt(b@, a@) == seq_lt(b@.skip(i as int), a@.skip(i as int)),
        decreases a@.len() - i,
    {
        proof {
            let sa = a@.skip(i as int);
            let sb = b@.skip(i as int);
            assert(sa.drop_first() =~= a@.skip(i + 1));
            assert(sb.drop_first() =~= b@.skip(i + 1));
            assert(sa[0] == a@[i as int]);
            assert(sb[0] == b@[i as int]);
            assert(a@.take(i + 1) =~= a@.take(i as int).push(a@[i as int]));
            assert(b@.take(i + 1) =~= b@.take(i as int).push(b@[i as int]));
        }
        i += 1;
    }
    let ghost sa = a@.skip(i as int);
    let ghost sb = b@.skip(i as int);
    proof {
        lemma_seq_lt_irreflexive(a@);
        lemma_seq_lt_asymmetric(a@, b@);
        lemma_seq_lt_total(a@, b@);
    }
    if i < a.len() && i < b.len() {
        assert(sa[0] == a@[i as int]);
        assert(sb[0] == b@[i as int]);
        assert(a@ != b@) by {
            if a@ == b@ {
                assert(a@[i as int] == b@[i as int]);
            }
        }
        if a[i] < b[i] {
            -1
        } else {
            1
        }
    } else if i < a.len() {
        assert(a@ != b@) by {
            if a@ == b@ {
                assert(a@.len() == b@.len());
            }
        }
        assert(sb.len() == 0);
        1
    } else if i < b.len() {
        assert(a@ != b@) by {
            if a@ == b@ {
                assert(a@.len() == b@.len());
            }
        }
        assert(sa.len() == 0);
        -1
    } else {
        assert(a@ =~= a@.take(i as int));
        assert(b@ =~= b@.take(i as int));
        0
    }
}

// ---------------------------------------------------------------------------
// Splitting at a character (`str::split_once`)
// ---------------------------------------------------------------------------

/// Position of the first `c` in `s`, if any.
pub open spec fn first_index(s: Seq<char>, c: char) -> Option<int> {
    if exists|i: int| 0 <= i < s.len() && s[i] == c {
        Some(choose|i: int| 0 <= i < s.len() && s[i] == c && forall|j: int| 0 <= j < i ==> s[j] != c)
    } else {
        None
    }
}

/// `s.split_once(c)`: the text before and after the first `c`.
pub open spec fn split_once(s: Seq<char>, c: char) -> Option<(Seq<char>, Seq<char>)> {
    match first_index(s, c) {
        Some(i) => Some((s.take(i), s.skip(i + 1))),
        None => None,
    }
}

pub proof fn lemma_first_index_is(s: Seq<char>, c: char, k: int)
    requires
        0 <= k < s.len(),
        s[k] == c,
        forall|j: int| 0 <= j < k ==> s[j] != c,
    ensures
        first_index(s, c) == Some(k),
{
    let i = choose|i: int| 0 <= i < s.len() && s[i] == c && forall|j: int| 0 <= j < i ==> s[j] != c;
    assert(0 <= i < s.len() && s[i] == c && forall|j: int| 0 <= j < i ==> s[j] != c);
    if i < k {
        assert(s[i] != c);
    }
    if k < i {
        assert(s[k] != c);
    }
}

/// The index of the first `c` in `cs`, if any.
pub fn find_char(cs: &Vec<char>, c: char) -> (r: Option<usize>)
    ensures
        match r {
            Some(i) => i < cs@.len() && first_index(cs@, c) == Some(i as int),
            None => first_index(cs@, c) is None,
        },
{
    let mut i: usize = 0;
    while i < cs.len()
        invariant
            i <= cs@.len(),
            forall|j: int| 0 <= j < i ==> cs@[j] != c,
        decreases cs@.len() - i,
    {
        if cs[i] == c {
            proof {
                lemma_first_index_is(cs@, c, i as int);
            }
            return Some(i);
        }
        i += 1;
    }
    None
}

/// `s.split_once(c)` on characters, as two new character vectors.
pub fn split_once_chars(cs: &Vec<char>, c: char) -> (r: Option<(Vec<char>, Vec<char>)>)
    ensures
        match r {
            Some(parts) => split_once(cs@, c) == Some((parts.0@, parts.1@)),
            None => split_once(cs@, c) is None,
        },
{
    match find_char(cs, c) {
        Some(i) => {
            let n = cs.len();
            let after = i + 1;
            let mut left: Vec<char> = Vec::new();
            let mut right: Vec<char> = Vec::new();
            let mut k: usize = 0;
            while k < i
                invariant
                    i < cs@.len(),
                    k <= i,
                    left@ == cs@.take(k as int),
                decreases i - k,
            {
                left.push(cs[k]);
                k += 1;
                assert(left@ =~= cs@.take(k as int));
            }
            k = after;
            while k < n
                invariant
                    n == cs@.len(),
                    i < k <= cs@.len(),
                    right@ == cs@.subrange(i + 1, k as int),
                decreases cs@.len() - k,
            {
                right.push(cs[k]);
                k += 1;
                assert(right@ =~= cs@.subrange(i + 1, k as int));
            }
            assert(right@ =~= cs@.skip(i + 1));
            Some((left, right))
        },
        None => None,
    }
}

} // verus!
