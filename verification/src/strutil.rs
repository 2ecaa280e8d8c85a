use vstd::prelude::*;
use vstd::string::StrSliceExecFns;
use vstd::string::StringExecFns;

verus! {

/// The ASCII lowering of one character: letters `A` through `Z` map to
/// their lowercase forms, every other character is unchanged.
pub open spec fn lower_char(c: char) -> char {
    if 'A' <= c && c <= 'Z' {
        (((c as u32) + 32) as u32) as char
    } else {
        c
    }
}

/// A character sequence lowered character by character.
pub open spec fn lower_seq(s: Seq<char>) -> Seq<char> {
    s.map_values(|c: char| lower_char(c))
}

/// The pattern `p` occurs in `s` starting at position `i`.
pub open spec fn match_at(s: Seq<char>, p: Seq<char>, i: int) -> bool {
    &&& 0 <= i
    &&& i + p.len() <= s.len()
    &&& forall|j: int| 0 <= j < p.len() ==> s[i + j] == p[j]
}

/// The pattern `p` occurs somewhere in `s`.
pub open spec fn spec_contains(s: Seq<char>, p: Seq<char>) -> bool {
    exists|i: int| match_at(s, p, i)
}

pub fn to_lower(c: char) -> (r: char)
    ensures
        r == lower_char(c),
{
    if 'A' <= c && c <= 'Z' {
        (((c as u32) + 32) as u8) as char
    } else {
        c
    }
}

/// Character-for-character equality of two string slices.
pub fn str_eq(a: &str, b: &str) -> (r: bool)
    ensures
        r == (a@ == b@),
{
    let alen = a.unicode_len();
    let blen = b.unicode_len();
    if alen != blen {
        return false;
    }
    let mut i: usize = 0;
    while i < alen
        invariant
            alen == a@.len(),
            alen == b@.len(),
            i <= alen,
            forall|j: int| 0 <= j < i ==> a@[j] == b@[j],
        decreases alen - i,
    {
        if a.get_char(i) != b.get_char(i) {
            return false;
        }
        i += 1;
    }
    proof {
        assert(a@ =~= b@);
    }
    true
}

/// Case-insensitive equality under ASCII lowering.
pub fn eq_ci(a: &str, b: &str) -> (r: bool)
    ensures
        r == (lower_seq(a@) == lower_seq(b@)),
{
    let alen = a.unicode_len();
    let blen = b.unicode_len();
    if alen != blen {
        proof {
            assert(lower_seq(a@).len() != lower_seq(b@).len());
        }
        return false;
    }
    let mut i: usize = 0;
    while i < alen
        invariant
            alen == a@.len(),
            alen == b@.len(),
            i <= alen,
            forall|j: int| 0 <= j < i ==> lower_seq(a@)[j] == lower_seq(b@)[j],
        decreases alen - i,
    {
        if to_lower(a.get_char(i)) != to_lower(b.get_char(i)) {
            proof {
                assert(lower_seq(a@)[i as int] == lower_char(a@[i as int]));
                assert(lower_seq(b@)[i as int] == lower_char(b@[i as int]));
            }
            return false;
        }
        proof {
            assert(lower_seq(a@)[i as int] == lower_char(a@[i as int]));
            assert(lower_seq(b@)[i as int] == lower_char(b@[i as int]));
        }
        i += 1;
    }
    proof {
        assert(lower_seq(a@) =~= lower_seq(b@));
    }
    true
}

/// Finds the first occurrence of `p` in `s`.
pub fn find_sub(s: &str, p: &str) -> (r: Option<usize>)
    ensures
        match r {
            Some(i) => match_at(s@, p@, i as int) && (forall|k: int|
                0 <= k < i ==> !match_at(s@, p@, k)),
            None => !spec_contains(s@, p@),
        },
{
    let slen = s.unicode_len();
    let plen = p.unicode_len();
    if plen > slen {
        return None;
    }
    let mut i: usize = 0;
    while i <= slen - plen
        invariant
            slen == s@.len(),
            plen == p@.len(),
            plen <= slen,
            i <= slen - plen + 1,
            forall|k: int| 0 <= k < i ==> !match_at(s@, p@, k),
        decreases slen - i,
    {
        let mut j: usize = 0;
        let mut mismatch = false;
        while j < plen
            invariant
                slen == s@.len(),
                plen == p@.len(),
                i + plen <= slen,
                j <= plen,
                !mismatch ==> forall|q: int| 0 <= q < j ==> s@[i + q] == p@[q],
                mismatch ==> !match_at(s@, p@, i as int),
            decreases plen - j,
        {
            if s.get_char(i + j) != p.get_char(j) {
                mismatch = true;
                j = plen;
            } else {
                j += 1;
            }
        }
        if !mismatch {
            return Some(i);
        }
        i += 1;
    }
    None
}

/// Whether `p` occurs in `s`.
pub fn contains_sub(s: &str, p: &str) -> (r: bool)
    ensures
        r == spec_contains(s@, p@),
{
    find_sub(s, p).is_some()
}

/// Whether `p` occurs in `s` when both are lowered character by character.
pub fn contains_ci(s: &str, p: &str) -> (r: bool)
    ensures
        r == spec_contains(lower_seq(s@), lower_seq(p@)),
{
    let slen = s.unicode_len();
    let plen = p.unicode_len();
    proof {
        assert(lower_seq(s@).len() == s@.len());
        assert(lower_seq(p@).len() == p@.len());
    }
    if plen > slen {
        return false;
    }
    let mut i: usize = 0;
    while i <= slen - plen
        invariant
            slen == s@.len(),
            plen == p@.len(),
            plen <= slen,
            i <= slen - plen + 1,
            forall|k: int| 0 <= k < i ==> !match_at(lower_seq(s@), lower_seq(p@), k),
        decreases slen - i,
    {
        let mut j: usize = 0;
        let mut mismatch = false;
        while j < plen
            invariant
                slen == s@.len(),
                plen == p@.len(),
                i + plen <= slen,
                j <= plen,
                !mismatch ==> forall|q: int|
                    0 <= q < j ==> lower_seq(s@)[i + q] == lower_seq(p@)[q],
                mismatch ==> !match_at(lower_seq(s@), lower_seq(p@), i as int),
            decreases plen - j,
        {
            proof {
                assert(lower_seq(s@)[i + j] == lower_char(s@[i + j]));
                assert(lower_seq(p@)[j as int] == lower_char(p@[j as int]));
            }
            if to_lower(s.get_char(i + j)) != to_lower(p.get_char(j)) {
                mismatch = true;
                j = plen;
            } else {
                j += 1;
            }
        }
        if !mismatch {
            proof {
                assert(match_at(lower_seq(s@), lower_seq(p@), i as int));
            }
            return true;
        }
        i += 1;
    }
    false
}

pub open spec fn is_digit(c: char) -> bool {
    '0' <= c && c <= '9'
}

pub open spec fn digit_of(c: char) -> int {
    (c as u32) - 48
}

pub open spec fn all_digits(s: Seq<char>) -> bool {
    forall|i: int| 0 <= i < s.len() ==> is_digit(s[i])
}

/// The numeric value of a sequence of decimal digit characters.
pub open spec fn dec_value(s: Seq<char>) -> int
    decreases s.len(),
{
    if s.len() == 0 {
        0
    } else {
        dec_value(s.drop_last()) * 10 + digit_of(s.last())
    }
}

pub proof fn lemma_dec_value_nonneg(s: Seq<char>)
    requires
        all_digits(s),
    ensures
        dec_value(s) >= 0,
    decreases s.len(),
{
    if s.len() > 0 {
        assert(all_digits(s.drop_last()));
        lemma_dec_value_nonneg(s.drop_last());
    }
}

pub proof fn lemma_dec_value_prefix(s: Seq<char>, k: int)
    requires
        all_digits(s),
        0 <= k <= s.len(),
    ensures
        dec_value(s.take(k)) <= dec_value(s),
    decreases s.len() - k,
{
    if k < s.len() {
        lemma_dec_value_prefix(s, k + 1);
        assert(s.take(k + 1).drop_last() =~= s.take(k));
        assert(all_digits(s.take(k)));
        lemma_dec_value_nonneg(s.take(k));
        assert(dec_value(s.take(k + 1)) == dec_value(s.take(k)) * 10 + digit_of(s[k]));
    } else {
        assert(s.take(k) =~= s);
    }
}

/// Parses a non-empty, all-digit decimal string into a `u32`; anything
/// else, including a value over `u32::MAX`, is rejected.
pub fn parse_u32(s: &str) -> (r: Option<u32>)
    ensures
        match r {
            Some(v) => s@.len() > 0 && all_digits(s@) && v == dec_value(s@),
            None => s@.len() == 0 || !all_digits(s@) || dec_value(s@) > u32::MAX,
        },
{
    let len = s.unicode_len();
    if len == 0 {
        return None;
    }
    let mut acc: u32 = 0;
    let mut i: usize = 0;
    while i < len
        invariant
            len == s@.len(),
            i <= len,
            all_digits(s@.take(i as int)),
            acc == dec_value(s@.take(i as int)),
        decreases len - i,
    {
        let c = s.get_char(i);
        if c < '0' || c > '9' {
            return None;
        }
        let d: u32 = (c as u32) - 48;
        proof {
            assert(s@.take(i + 1).drop_last() =~= s@.take(i as int));
            assert(all_digits(s@.take(i + 1)));
        }
        if acc > (u32::MAX - d) / 10 {
            proof {
                if all_digits(s@) {
                    lemma_dec_value_prefix(s@, i + 1);
                }
            }
            return None;
        }
        acc = acc * 10 + d;
        i += 1;
    }
    proof {
        assert(s@.take(len as int) =~= s@);
    }
    Some(acc)
}

/// The decimal digit character for a value between 0 and 9.
pub open spec fn dec_digit_char(d: int) -> char {
    ((d + 48) as u32) as char
}

/// The decimal rendering of a non-negative integer, most significant
/// digit first.
pub open spec fn spec_dec(n: int) -> Seq<char>
    decreases n,
{
    if n < 10 {
        seq![dec_digit_char(n)]
    } else {
        spec_dec(n / 10) + seq![dec_digit_char(n % 10)]
    }
}

fn digit_str(d: u64) -> (r: &'static str)
    requires
        d < 10,
    ensures
        r@ =~= seq![dec_digit_char(d as int)],
{
    proof {
        reveal_strlit("0");
        reveal_strlit("1");
        reveal_strlit("2");
        reveal_strlit("3");
        reveal_strlit("4");
        reveal_strlit("5");
        reveal_strlit("6");
        reveal_strlit("7");
        reveal_strlit("8");
        reveal_strlit("9");
    }
    match d {
        0 => "0",
        1 => "1",
        2 => "2",
        3 => "3",
        4 => "4",
        5 => "5",
        6 => "6",
        7 => "7",
        8 => "8",
        _ => "9",
    }
}

/// Renders a `u64` in decimal.
pub fn u64_to_string(n: u64) -> (r: String)
    ensures
        r@ == spec_dec(n as int),
    decreases n,
{
    if n < 10 {
        String::from_str(digit_str(n))
    } else {
        let mut prefix = u64_to_string(n / 10);
        prefix.append(digit_str(n % 10));
        proof {
            assert(prefix@ =~= spec_dec(n as int));
        }
        prefix
    }
}

/// The prefix of `s` before the first occurrence of `c`; the whole of
/// `s` when `c` does not occur.
pub open spec fn upto_char(s: Seq<char>, c: char) -> Seq<char>
    decreases s.len(),
{
    if s.len() == 0 {
        s
    } else if s[0] == c {
        Seq::empty()
    } else {
        seq![s[0]] + upto_char(s.drop_first(), c)
    }
}

/// The remainder of `s` after the first occurrence of `c`; empty when
/// `c` does not occur.
pub open spec fn after_first(s: Seq<char>, c: char) -> Seq<char>
    decreases s.len(),
{
    if s.len() == 0 {
        s
    } else if s[0] == c {
        s.drop_first()
    } else {
        after_first(s.drop_first(), c)
    }
}

/// The suffix of `s` after the last occurrence of `c`; the whole of `s`
/// when `c` does not occur.
pub open spec fn after_last(s: Seq<char>, c: char) -> Seq<char>
    decreases s.len(),
{
    if s.len() == 0 {
        s
    } else if s.last() == c {
        Seq::empty()
    } else {
        after_last(s.drop_last(), c).push(s.last())
    }
}

pub proof fn lemma_upto_char_at(s: Seq<char>, c: char, k: int)
    requires
        0 <= k < s.len(),
        s[k] == c,
        forall|m: int| 0 <= m < k ==> s[m] != c,
    ensures
        upto_char(s, c) == s.take(k),
        after_first(s, c) == s.subrange(k + 1, s.len() as int),
    decreases k,
{
    if k == 0 {
        assert(upto_char(s, c) =~= s.take(0));
        assert(s.drop_first() =~= s.subrange(1, s.len() as int));
    } else {
        lemma_upto_char_at(s.drop_first(), c, k - 1);
        assert(seq![s[0]] + s.drop_first().take(k - 1) =~= s.take(k));
        assert(s.drop_first().subrange(k, s.drop_first().len() as int) =~= s.subrange(
            k + 1,
            s.len() as int,
        ));
    }
}

pub proof fn lemma_upto_char_absent(s: Seq<char>, c: char)
    requires
        forall|m: int| 0 <= m < s.len() ==> s[m] != c,
    ensures
        upto_char(s, c) == s,
        after_first(s, c) == Seq::<char>::empty(),
    decreases s.len(),
{
    if s.len() > 0 {
        lemma_upto_char_absent(s.drop_first(), c);
        assert(seq![s[0]] + s.drop_first() =~= s);
        assert(after_first(s, c) =~= Seq::<char>::empty());
    } else {
        assert(after_first(s, c) =~= Seq::<char>::empty());
    }
}

pub proof fn lemma_after_last_at(s: Seq<char>, c: char, k: int)
    requires
        0 <= k < s.len(),
        s[k] == c,
        forall|m: int| k < m < s.len() ==> s[m] != c,
    ensures
        after_last(s, c) == s.subrange(k + 1, s.len() as int),
    decreases s.len(),
{
    if k == s.len() - 1 {
        assert(after_last(s, c) =~= s.subrange(k + 1, s.len() as int));
    } else {
        assert(s.last() != c);
        lemma_after_last_at(s.drop_last(), c, k);
        assert(s.drop_last().subrange(k + 1, s.drop_last().len() as int).push(s.last()) =~= s
            .subrange(k + 1, s.len() as int));
    }
}

pub proof fn lemma_after_last_absent(s: Seq<char>, c: char)
    requires
        forall|m: int| 0 <= m < s.len() ==> s[m] != c,
    ensures
        after_last(s, c) == s,
    decreases s.len(),
{
    if s.len() > 0 {
        lemma_after_last_absent(s.drop_last(), c);
        assert(s.drop_last().push(s.last()) =~= s);
    }
}

/// The prefix of `s` before the first occurrence of `c`, as a string.
pub fn prefix_before_char(s: &str, c: char) -> (r: String)
    ensures
        r@ == upto_char(s@, c),
{
    let len = s.unicode_len();
    match find_char(s, c) {
        Some(i) => {
            proof {
                lemma_upto_char_at(s@, c, i as int);
                assert(s@.take(i as int) =~= s@.subrange(0, i as int));
            }
            let piece = s.substring_char(0, i);
            piece.to_owned()
        },
        None => {
            proof {
                lemma_upto_char_absent(s@, c);
                assert(s@.subrange(0, len as int) =~= s@);
            }
            let piece = s.substring_char(0, len);
            piece.to_owned()
        },
    }
}

/// The remainder of `s` after the first occurrence of `c`, as a string.
pub fn suffix_after_char(s: &str, c: char) -> (r: String)
    ensures
        r@ == after_first(s@, c),
{
    let len = s.unicode_len();
    match find_char(s, c) {
        Some(i) => {
            proof {
                lemma_upto_char_at(s@, c, i as int);
            }
            let piece = s.substring_char(i + 1, len);
            piece.to_owned()
        },
        None => {
            proof {
                lemma_upto_char_absent(s@, c);
            }
            String::new()
        },
    }
}

/// The parts joined with `sep` between consecutive parts.
pub open spec fn spec_join(parts: Seq<Seq<char>>, sep: char) -> Seq<char>
    decreases parts.len(),
{
    if parts.len() == 0 {
        Seq::empty()
    } else if parts.len() == 1 {
        parts[0]
    } else {
        parts[0] + seq![sep] + spec_join(parts.drop_first(), sep)
    }
}

pub proof fn lemma_join_push(parts: Seq<Seq<char>>, y: Seq<char>, sep: char)
    requires
        parts.len() >= 1,
    ensures
        spec_join(parts.push(y), sep) == spec_join(parts, sep) + seq![sep] + y,
    decreases parts.len(),
{
    if parts.len() == 1 {
        assert(parts.push(y).drop_first() =~= seq![y]);
        assert(spec_join(seq![y], sep) == y);
        assert(spec_join(parts.push(y), sep) == parts[0] + seq![sep] + y);
    } else {
        lemma_join_push(parts.drop_first(), y, sep);
        assert(parts.push(y).drop_first() =~= parts.drop_first().push(y));
        assert(spec_join(parts.push(y), sep) == parts[0] + seq![sep] + spec_join(
            parts.drop_first().push(y),
            sep,
        ));
        assert(spec_join(parts.push(y), sep) =~= spec_join(parts, sep) + seq![sep] + y);
    }
}

/// Splits `s` on every occurrence of `sep`. The result is pinned down by
/// the two clauses together: no part contains the separator, and joining
/// the parts with the separator restores the input.
pub fn split_char(s: &str, sep: char) -> (r: Vec<String>)
    ensures
        r@.len() >= 1,
        spec_join(r.deep_view(), sep) == s@,
        forall|k: int| 0 <= k < r@.len() ==> !(#[trigger] r.deep_view()[k]).contains(sep),
{
    let len = s.unicode_len();
    let mut parts: Vec<String> = Vec::new();
    let mut start: usize = 0;
    let mut i: usize = 0;
    while i < len
        invariant
            len == s@.len(),
            start <= i <= len,
            spec_join(parts.deep_view().push(s@.subrange(start as int, i as int)), sep) == s@.take(
                i as int,
            ),
            forall|k: int|
                0 <= k < parts@.len() ==> !(#[trigger] parts.deep_view()[k]).contains(sep),
            forall|m: int| start <= m < i ==> s@[m] != sep,
        decreases len - i,
    {
        let c = s.get_char(i);
        if c == sep {
            let ghost cur = s@.subrange(start as int, i as int);
            let ghost old_parts = parts.deep_view();
            let piece = s.substring_char(start, i);
            parts.push(piece.to_owned());
            proof {
                assert(parts.deep_view() =~= old_parts.push(cur));
                assert forall|idx: int| 0 <= idx < cur.len() implies cur[idx] != sep by {
                    assert(cur[idx] == s@[start + idx]);
                }
                assert(!cur.contains(sep));
                lemma_join_push(old_parts.push(cur), s@.subrange(i + 1, i + 1), sep);
                assert(s@.subrange(i + 1, i + 1) =~= Seq::<char>::empty());
                assert(spec_join(old_parts.push(cur).push(s@.subrange(i + 1, i + 1)), sep) =~= s@
                    .take(i as int) + seq![sep]);
                assert(s@.take(i as int) + seq![sep] =~= s@.take(i + 1));
            }
            start = i + 1;
        } else {
            proof {
                let cur = s@.subrange(start as int, i as int);
                let cur2 = s@.subrange(start as int, i + 1);
                let p = parts.deep_view();
                assert(cur2 =~= cur + seq![s@[i as int]]);
                if p.len() == 0 {
                    assert(spec_join(p.push(cur), sep) == cur);
                    assert(spec_join(p.push(cur2), sep) == cur2);
                    assert(cur2 =~= s@.take(i as int) + seq![s@[i as int]]);
                } else {
                    lemma_join_push(p, cur, sep);
                    lemma_join_push(p, cur2, sep);
                    assert(spec_join(p.push(cur2), sep) =~= spec_join(p.push(cur), sep) + seq![
                        s@[i as int],
                    ]);
                }
                assert(s@.take(i as int) + seq![s@[i as int]] =~= s@.take(i + 1));
            }
        }
        i += 1;
    }
    let ghost old_parts = parts.deep_view();
    let ghost cur = s@.subrange(start as int, len as int);
    let piece = s.substring_char(start, len);
    parts.push(piece.to_owned());
    proof {
        assert(parts.deep_view() =~= old_parts.push(cur));
        assert forall|idx: int| 0 <= idx < cur.len() implies cur[idx] != sep by {
            assert(cur[idx] == s@[start + idx]);
        }
        assert(!cur.contains(sep));
        assert(s@.take(len as int) =~= s@);
    }
    parts
}

/// Each part of a join is a contiguous subrange of the joined whole.
pub proof fn lemma_join_part_subrange(parts: Seq<Seq<char>>, sep: char, k: int)
    requires
        0 <= k < parts.len(),
    ensures
        exists|off: int|
            {
                &&& 0 <= off
                &&& off + parts[k].len() <= spec_join(parts, sep).len()
                &&& parts[k] == #[trigger] spec_join(parts, sep).subrange(
                    off,
                    off + parts[k].len(),
                )
            },
    decreases k,
{
    let whole = spec_join(parts, sep);
    if parts.len() == 1 {
        assert(parts[0] =~= whole.subrange(0, parts[0].len() as int));
        assert(0 <= 0 && 0 + parts[k].len() <= whole.len() && parts[k] == whole.subrange(
            0,
            parts[k].len() as int,
        ));
    } else if k == 0 {
        assert(whole == parts[0] + seq![sep] + spec_join(parts.drop_first(), sep));
        assert(parts[0] =~= whole.subrange(0, parts[0].len() as int));
        assert(0 <= 0 && 0 + parts[k].len() <= whole.len() && parts[k] == whole.subrange(
            0,
            parts[k].len() as int,
        ));
    } else {
        lemma_join_part_subrange(parts.drop_first(), sep, k - 1);
        let rest = spec_join(parts.drop_first(), sep);
        let off0 = choose|off0: int|
            {
                &&& 0 <= off0
                &&& off0 + parts.drop_first()[k - 1].len() <= rest.len()
                &&& parts.drop_first()[k - 1] == #[trigger] rest.subrange(
                    off0,
                    off0 + parts.drop_first()[k - 1].len(),
                )
            };
        let off = parts[0].len() + 1 + off0;
        assert(whole == parts[0] + seq![sep] + rest);
        assert(parts.drop_first()[k - 1] == parts[k]);
        assert(parts[k] =~= whole.subrange(off, off + parts[k].len()));
        assert(0 <= off && off + parts[k].len() <= whole.len() && parts[k] == whole.subrange(
            off,
            off + parts[k].len(),
        ));
    }
}

/// What occurs in a subrange occurs in the whole.
pub proof fn lemma_subrange_contains(whole: Seq<char>, off: int, part: Seq<char>, p: Seq<char>)
    requires
        0 <= off,
        off + part.len() <= whole.len(),
        part == whole.subrange(off, off + part.len()),
        spec_contains(part, p),
    ensures
        spec_contains(whole, p),
{
    let i = choose|i: int| match_at(part, p, i);
    assert forall|j: int| 0 <= j < p.len() implies whole[off + i + j] == p[j] by {
        assert(part[i + j] == p[j]);
        assert(part[i + j] == whole[off + i + j]);
    }
    assert(match_at(whole, p, off + i));
}

/// The remainder of `s` after the first occurrence of the pattern `p`,
/// when `p` occurs at all.
pub fn suffix_after_sub(s: &str, p: &str) -> (r: Option<String>)
    ensures
        match r {
            Some(t) => exists|i: int|
                {
                    &&& match_at(s@, p@, i)
                    &&& t@ == s@.subrange(i + p@.len(), s@.len() as int)
                },
            None => !spec_contains(s@, p@),
        },
{
    let slen = s.unicode_len();
    let plen = p.unicode_len();
    match find_sub(s, p) {
        Some(i) => {
            let piece = s.substring_char(i + plen, slen);
            proof {
                assert(match_at(s@, p@, i as int) && piece@ == s@.subrange(
                    i + p@.len(),
                    s@.len() as int,
                ));
            }
            Some(piece.to_owned())
        },
        None => None,
    }
}


/// A non-empty remainder after the first `c` is a proper suffix of `s`.
pub proof fn lemma_after_first_is_suffix(s: Seq<char>, c: char)
    ensures
        after_first(s, c).len() == 0 || exists|e: int|
            {
                &&& 1 <= e <= s.len()
                &&& after_first(s, c) == s.subrange(e, s.len() as int)
            },
    decreases s.len(),
{
    if s.len() > 0 {
        if s[0] == c {
            assert(s.drop_first() =~= s.subrange(1, s.len() as int));
            assert(1 <= 1 <= s.len() && after_first(s, c) == s.subrange(1, s.len() as int));
        } else {
            lemma_after_first_is_suffix(s.drop_first(), c);
            if after_first(s, c).len() > 0 {
                let e0 = choose|e0: int|
                    {
                        &&& 1 <= e0 <= s.drop_first().len()
                        &&& after_first(s.drop_first(), c) == s.drop_first().subrange(
                            e0,
                            s.drop_first().len() as int,
                        )
                    };
                assert(s.drop_first().subrange(e0, s.drop_first().len() as int) =~= s.subrange(
                    e0 + 1,
                    s.len() as int,
                ));
                assert(1 <= e0 + 1 <= s.len() && after_first(s, c) == s.subrange(
                    e0 + 1,
                    s.len() as int,
                ));
            }
        }
    }
}

/// Finds the first occurrence of the character `c` in `s`.
pub fn find_char(s: &str, c: char) -> (r: Option<usize>)
    ensures
        match r {
            Some(i) => i < s@.len() && s@[i as int] == c && (forall|k: int|
                0 <= k < i ==> s@[k] != c),
            None => forall|k: int| 0 <= k < s@.len() ==> s@[k] != c,
        },
{
    let len = s.unicode_len();
    let mut i: usize = 0;
    while i < len
        invariant
            len == s@.len(),
            i <= len,
            forall|k: int| 0 <= k < i ==> s@[k] != c,
        decreases len - i,
    {
        if s.get_char(i) == c {
            return Some(i);
        }
        i += 1;
    }
    None
}

/// Finds the last occurrence of the character `c` in `s`.
pub fn rfind_char(s: &str, c: char) -> (r: Option<usize>)
    ensures
        match r {
            Some(i) => i < s@.len() && s@[i as int] == c && (forall|k: int|
                i < k < s@.len() ==> s@[k] != c),
            None => forall|k: int| 0 <= k < s@.len() ==> s@[k] != c,
        },
{
    let len = s.unicode_len();
    let mut i: usize = len;
    while i > 0
        invariant
            len == s@.len(),
            i <= len,
            forall|k: int| i <= k < len ==> s@[k] != c,
        decreases i,
    {
        i -= 1;
        if s.get_char(i) == c {
            return Some(i);
        }
    }
    None
}

/// An ASCII whitespace character.
pub open spec fn is_ws(c: char) -> bool {
    c == ' ' || c == '\t' || c == '\n' || c == '\r'
}

fn is_ws_exec(c: char) -> (r: bool)
    ensures
        r == is_ws(c),
{
    c == ' ' || c == '\t' || c == '\n' || c == '\r'
}

/// Removes leading and trailing ASCII whitespace. The result is the
/// subrange between the first and the last non-whitespace character.
pub fn trim_ascii(s: &str) -> (r: String)
    ensures
        exists|a: int, b: int|
            {
                &&& 0 <= a <= b <= s@.len()
                &&& r@ == s@.subrange(a, b)
                &&& forall|k: int| 0 <= k < a ==> is_ws(s@[k])
                &&& forall|k: int| b <= k < s@.len() ==> is_ws(s@[k])
                &&& (a < b ==> !is_ws(s@[a]) && !is_ws(s@[b - 1]))
                &&& (a == b ==> forall|k: int| 0 <= k < s@.len() ==> is_ws(s@[k]))
            },
{
    let len = s.unicode_len();
    let mut a: usize = 0;
    while a < len && is_ws_exec(s.get_char(a))
        invariant
            len == s@.len(),
            a <= len,
            forall|k: int| 0 <= k < a ==> is_ws(s@[k]),
        decreases len - a,
    {
        a += 1;
    }
    if a == len {
        let r = String::new();
        proof {
            assert(r@ =~= s@.subrange(a as int, a as int));
        }
        return r;
    }
    let mut b: usize = len;
    while b > a && is_ws_exec(s.get_char(b - 1))
        invariant
            len == s@.len(),
            a <= b <= len,
            forall|k: int| b <= k < len ==> is_ws(s@[k]),
        decreases b,
    {
        b -= 1;
    }
    proof {
        assert(!is_ws(s@[a as int]));
        assert(a < b);
    }
    let piece = s.substring_char(a, b);
    piece.to_owned()
}

/// The first whitespace-separated token of `s`, if any.
pub fn first_token(s: &str) -> (r: Option<String>)
    ensures
        match r {
            Some(t) => exists|a: int, b: int|
                {
                    &&& 0 <= a < b <= s@.len()
                    &&& t@ == s@.subrange(a, b)
                    &&& forall|k: int| 0 <= k < a ==> is_ws(s@[k])
                    &&& forall|k: int| a <= k < b ==> !is_ws(s@[k])
                    &&& (b < s@.len() ==> is_ws(s@[b]))
                },
            None => forall|k: int| 0 <= k < s@.len() ==> is_ws(s@[k]),
        },
{
    let len = s.unicode_len();
    let mut a: usize = 0;
    while a < len && is_ws_exec(s.get_char(a))
        invariant
            len == s@.len(),
            a <= len,
            forall|k: int| 0 <= k < a ==> is_ws(s@[k]),
        decreases len - a,
    {
        a += 1;
    }
    if a == len {
        return None;
    }
    let mut b: usize = a;
    while b < len && !is_ws_exec(s.get_char(b))
        invariant
            len == s@.len(),
            a <= b <= len,
            forall|k: int| a <= k < b ==> !is_ws(s@[k]),
        decreases len - b,
    {
        b += 1;
    }
    let piece = s.substring_char(a, b);
    Some(piece.to_owned())
}

/// The component of a path after the last `/`, or the whole string when
/// there is no `/`.
pub fn file_name_of(path: &str) -> (r: String)
    ensures
        exists|a: int|
            {
                &&& 0 <= a <= path@.len()
                &&& r@ == path@.subrange(a, path@.len() as int)
                &&& forall|k: int| a <= k < path@.len() ==> path@[k] != '/'
                &&& (a > 0 ==> path@[a - 1] == '/')
            },
{
    let len = path.unicode_len();
    match rfind_char(path, '/') {
        Some(i) => {
            let piece = path.substring_char(i + 1, len);
            piece.to_owned()
        },
        None => {
            let piece = path.substring_char(0, len);
            piece.to_owned()
        },
    }
}

} // verus!
