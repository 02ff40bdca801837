use vstd::prelude::*;
use crate::decimal::{decimal, push_decimal};
use crate::error::{rejects, validation, AppError};
use crate::ordered::has_text;
use crate::text::{str_eq, all_space, chars_of, is_blank, push_char, string_from_chars, string_from_range,
    trim, trim_bounds, lemma_trim_empty_iff_all_space};

verus! {

/// Characters that may not stay in a file name: path separators and NUL.
pub open spec fn is_path_separator(c: char) -> bool {
    c == '/' || c == '\\' || c == '\0'
}

/// `s` without its path separators, the other characters in order.
pub open spec fn without_separators(s: Seq<char>) -> Seq<char>
    decreases s.len(),
{
    if s.len() == 0 {
        s
    } else if is_path_separator(s.last()) {
        without_separators(s.drop_last())
    } else {
        without_separators(s.drop_last()).push(s.last())
    }
}

/// Every character is a dot.
pub open spec fn only_dots(s: Seq<char>) -> bool {
    forall|i: int| 0 <= i < s.len() ==> s[i] == '.'
}

proof fn lemma_without_separators_has_none(s: Seq<char>)
    ensures
        forall|i: int| 0 <= i < without_separators(s).len() ==> !is_path_separator(#[trigger] without_separators(s)[i]),
    decreases s.len(),
{
    if s.len() > 0 {
        lemma_without_separators_has_none(s.drop_last());
        let w = without_separators(s);
        let p = without_separators(s.drop_last());
        assert forall|i: int| 0 <= i < w.len() implies !is_path_separator(#[trigger] w[i]) by {
            if i < p.len() {
                assert(w[i] == p[i]);
            }
        }
    }
}

/// A file name taken from the user: trimmed, with path separators and NUL
/// removed. Refused when nothing is left after trimming, or when nothing or
/// only dots are left after the removal. What is returned holds no
/// separator, is not empty and is not made of dots alone.
pub fn sanitize_file_name(raw: &str) -> (r: Result<String, AppError>)
    ensures
        all_space(raw@) ==> rejects(r, "Dosya adı boş olamaz"@),
        !all_space(raw@) && (without_separators(trim(raw@)).len() == 0 || only_dots(
            without_separators(trim(raw@)),
        )) ==> rejects(r, "Geçersiz dosya adı"@),
        !all_space(raw@) && without_separators(trim(raw@)).len() > 0 && !only_dots(
            without_separators(trim(raw@)),
        ) ==> (r matches Ok(name) && name@ == without_separators(trim(raw@))),
        r matches Ok(name) ==> name@.len() > 0 && !only_dots(name@) && forall|i: int|
            0 <= i < name@.len() ==> !is_path_separator(#[trigger] name@[i]),
{
    proof {
        lemma_trim_empty_iff_all_space(raw@);
    }
    if is_blank(raw) {
        return Err(validation("Dosya adı boş olamaz"));
    }
    let cs = chars_of(raw);
    let (a, b) = trim_bounds(&cs);
    let ghost t = trim(raw@);
    let mut cleaned: Vec<char> = Vec::new();
    let mut i = a;
    while i < b
        invariant
            a <= i <= b <= cs@.len(),
            cs@ == raw@,
            t == cs@.subrange(a as int, b as int),
            cleaned@ == without_separators(t.take(i - a)),
        decreases b - i,
    {
        let c = cs[i];
        proof {
            let p = t.take(i - a + 1);
            assert(p.drop_last() =~= t.take(i - a));
            assert(p.last() == c);
        }
        if !(c == '/' || c == '\\' || c == '\0') {
            cleaned.push(c);
        }
        i += 1;
    }
    assert(t.take(b - a) =~= t);
    proof {
        lemma_without_separators_has_none(t);
    }
    if cleaned.len() == 0 {
        return Err(validation("Geçersiz dosya adı"));
    }
    let mut all_dots = true;
    let mut k: usize = 0;
    while k < cleaned.len()
        invariant
            k <= cleaned@.len(),
            all_dots == forall|j: int| 0 <= j < k ==> cleaned@[j] == '.',
        decreases cleaned@.len() - k,
    {
        if cleaned[k] != '.' {
            all_dots = false;
        }
        k += 1;
    }
    if all_dots {
        return Err(validation("Geçersiz dosya adı"));
    }
    Ok(string_from_chars(&cleaned))
}

/// A path given by the user, trimmed; a blank one is refused.
pub fn require_non_empty_path(path: &str) -> (r: Result<String, AppError>)
    ensures
        all_space(path@) ==> rejects(r, "Dosya yolu boş olamaz"@),
        !all_space(path@) ==> (r matches Ok(p) && p@ == trim(path@)),
{
    if is_blank(path) {
        return Err(validation("Dosya yolu boş olamaz"));
    }
    let cs = chars_of(path);
    let (a, b) = trim_bounds(&cs);
    Ok(string_from_range(&cs, a, b))
}

/// Position of the last `c` in `s`, if any.
pub open spec fn last_index(s: Seq<char>, c: char) -> Option<int>
    decreases s.len(),
{
    if s.len() == 0 {
        None
    } else if s.last() == c {
        Some(s.len() - 1)
    } else {
        last_index(s.drop_last(), c)
    }
}

/// The stem and extension of a file name, as `Path::file_stem` and
/// `Path::extension` give them: split at the last dot, except that a name
/// whose only dot leads it, a name without a dot and `..` have no extension.
pub open spec fn stem_and_extension(name: Seq<char>) -> (Seq<char>, Option<Seq<char>>) {
    if name == ".."@ {
        (name, None)
    } else {
        match last_index(name, '.') {
            Some(i) => if i == 0 {
                (name, None)
            } else {
                (name.take(i), Some(name.skip(i + 1)))
            },
            None => (name, None),
        }
    }
}

/// The name tried when `name` is taken: `{stem} ({index}){.extension}`.
pub open spec fn numbered_name(name: Seq<char>, index: int) -> Seq<char> {
    let (stem, ext) = stem_and_extension(name);
    stem + " ("@ + decimal(index) + ")"@ + match ext {
        Some(e) => "."@ + e,
        None => Seq::empty(),
    }
}

fn find_last(cs: &Vec<char>, c: char) -> (r: Option<usize>)
    ensures
        match r {
            Some(i) => i < cs@.len() && last_index(cs@, c) == Some(i as int),
            None => last_index(cs@, c) is None,
        },
{
    let mut i = cs.len();
    assert(cs@.take(i as int) =~= cs@);
    while i > 0
        invariant
            i <= cs@.len(),
            last_index(cs@, c) == last_index(cs@.take(i as int), c),
        decreases i,
    {
        proof {
            let t = cs@.take(i as int);
            assert(t.last() == cs@[i - 1]);
            assert(t.drop_last() =~= cs@.take(i - 1));
        }
        if cs[i - 1] == c {
            return Some(i - 1);
        }
        i -= 1;
    }
    None
}

fn push_all(out: &mut String, cs: &Vec<char>, from: usize, to: usize)
    requires
        from <= to <= cs@.len(),
    ensures
        final(out)@ == old(out)@ + cs@.subrange(from as int, to as int),
{
    let mut i = from;
    while i < to
        invariant
            from <= i <= to <= cs@.len(),
            out@ == old(out)@ + cs@.subrange(from as int, i as int),
        decreases to - i,
    {
        push_char(out, cs[i]);
        i += 1;
        assert(out@ =~= old(out)@ + cs@.subrange(from as int, i as int));
    }
}

/// The `index`-th alternative name for a file whose name is taken, such as
/// `rapor (1).pdf` for `rapor.pdf`.
pub fn numbered_file_name(name: &str, index: i64) -> (r: String)
    ensures
        r@ == numbered_name(name@, index as int),
{
    let cs = chars_of(name);
    let n = cs.len();
    let is_dot_dot = n == 2 && cs[0] == '.' && cs[1] == '.';
    proof {
        reveal_strlit("..");
        reveal_strlit(" (");
        reveal_strlit(")");
        reveal_strlit(".");
        if is_dot_dot {
            assert(name@ =~= ".."@);
        } else {
            assert(name@ != ".."@);
        }
    }
    let split: Option<usize> = if is_dot_dot {
        None
    } else {
        match find_last(&cs, '.') {
            Some(i) => if i == 0 {
                None
            } else {
                Some(i)
            },
            None => None,
        }
    };
    let mut out = String::new();
    match split {
        Some(i) => {
            push_all(&mut out, &cs, 0, i);
            push_char(&mut out, ' ');
            push_char(&mut out, '(');
            push_decimal(&mut out, index);
            push_char(&mut out, ')');
            push_char(&mut out, '.');
            push_all(&mut out, &cs, i + 1, n);
            assert(cs@.subrange(0, i as int) =~= name@.take(i as int));
            assert(cs@.subrange(i + 1, n as int) =~= name@.skip(i + 1));
        },
        None => {
            push_all(&mut out, &cs, 0, n);
            push_char(&mut out, ' ');
            push_char(&mut out, '(');
            push_decimal(&mut out, index);
            push_char(&mut out, ')');
            assert(cs@.subrange(0, n as int) =~= name@);
        },
    }
    assert(out@ =~= numbered_name(name@, index as int));
    out
}

} // verus!

verus! {

/// The numbered alternatives tried for a taken file name.
pub const MAX_NUMBERED_NAMES: i64 = 999;

/// The first name free among `existing`: `name` itself when it is free,
/// else the first of `name (1)` .. `name (999)` that is free; `None` when
/// all of them are taken.
pub fn free_file_name(name: &str, existing: &Vec<String>) -> (r: Option<String>)
    ensures
        !has_text(existing@, name@) ==> (r matches Some(t) && t@ == name@),
        has_text(existing@, name@) ==> match r {
            Some(t) => exists|k: int|
                1 <= k <= MAX_NUMBERED_NAMES && t@ == #[trigger] numbered_name(name@, k) && !has_text(
                    existing@,
                    numbered_name(name@, k),
                ) && forall|j: int| 1 <= j < k ==> has_text(existing@, #[trigger] numbered_name(name@, j)),
            None => forall|j: int|
                1 <= j <= MAX_NUMBERED_NAMES ==> has_text(existing@, #[trigger] numbered_name(name@, j)),
        },
{
    if !contains_text(existing, name) {
        return Some(crate::text::string_of(name));
    }
    let mut index: i64 = 1;
    while index <= MAX_NUMBERED_NAMES
        invariant
            1 <= index <= MAX_NUMBERED_NAMES + 1,
            has_text(existing@, name@),
            forall|j: int| 1 <= j < index ==> has_text(existing@, #[trigger] numbered_name(name@, j)),
        decreases MAX_NUMBERED_NAMES + 1 - index,
    {
        let candidate = numbered_file_name(name, index);
        if !contains_text(existing, candidate.as_str()) {
            return Some(candidate);
        }
        index += 1;
    }
    None
}

/// Whether `t` is one of `texts`.
fn contains_text(texts: &Vec<String>, t: &str) -> (b: bool)
    ensures
        b == has_text(texts@, t@),
{
    let mut i: usize = 0;
    while i < texts.len()
        invariant
            i <= texts@.len(),
            forall|k: int| 0 <= k < i ==> (#[trigger] texts@[k])@ != t@,
        decreases texts@.len() - i,
    {
        if str_eq(texts[i].as_str(), t) {
            return true;
        }
        i += 1;
    }
    false
}

} // verus!
