//! Character-level text operations shared by the analysis components.
//!
//! Every operation is specified over `Seq<char>`; the executable versions work
//! on `Vec<char>` and are proved against those specifications.

use vstd::prelude::*;

verus! {

/// The characters of `s`, in order.
pub fn chars_of(s: &str) -> (r: Vec<char>)
    ensures
        r@ == s@,
{
    let mut out: Vec<char> = Vec::new();
    for c in it: s.chars()
        invariant
            it.seq() == s@,
            out@ == it.seq().take(it.index() as int),
    {
        out.push(c);
        assert(out@ =~= it.seq().take(it.index() + 1));
    }
    assert(out@ =~= s@);
    out
}

/// The string made of `chars`, in order.
///
/// Trusted: wraps `String::from_iter` over the characters; the contract claims
/// that the string holds exactly the given characters.
#[verifier::external_body]
pub(crate) fn string_of(chars: &Vec<char>) -> (r: String)
    ensures
        r@ == chars@,
{
    String::from_iter(chars.iter())
}

/// The text that `bytes` encode in UTF-8, if they are valid UTF-8.
pub open spec fn utf8_text(bytes: Seq<u8>) -> Option<Seq<char>> {
    if vstd::utf8::valid_utf8(bytes) {
        Some(vstd::utf8::decode_utf8(bytes))
    } else {
        None
    }
}

/// What `String::from_utf16` makes of `units`: the text, or `None` where it
/// reports an unpaired surrogate.
pub uninterp spec fn utf16_text(units: Seq<u16>) -> Option<Seq<char>>;

/// The view of an optional string.
pub open spec fn opt_view(s: Option<String>) -> Option<Seq<char>> {
    match s {
        Some(t) => Some(t@),
        None => None,
    }
}

/// Decodes `bytes` as UTF-8.
///
/// Trusted: wraps `String::from_utf8`, which succeeds exactly on valid UTF-8
/// and then holds the decoded characters.
#[verifier::external_body]
pub(crate) fn decode_utf8_text(bytes: &Vec<u8>) -> (r: Option<String>)
    ensures
        opt_view(r) == utf8_text(bytes@),
{
    String::from_utf8(bytes.clone()).ok()
}

/// Decodes `units` as UTF-16.
///
/// Trusted: wraps `String::from_utf16`. The contract only names its result.
#[verifier::external_body]
pub(crate) fn decode_utf16_text(units: &Vec<u16>) -> (r: Option<String>)
    ensures
        opt_view(r) == utf16_text(units@),
{
    String::from_utf16(units).ok()
}

/// Whether `c` is a white-space character (the Unicode `White_Space` set).
pub open spec fn is_space(c: char) -> bool {
    let n = c as u32;
    (0x09 <= n <= 0x0D) || n == 0x20 || n == 0x85 || n == 0xA0 || n == 0x1680 || (0x2000 <= n
        <= 0x200A) || n == 0x2028 || n == 0x2029 || n == 0x202F || n == 0x205F || n == 0x3000
}

/// Whether `c` is a white-space character.
pub fn char_is_space(c: char) -> (r: bool)
    ensures
        r == is_space(c),
{
    let n: u32 = c as u32;
    (0x09 <= n && n <= 0x0D) || n == 0x20 || n == 0x85 || n == 0xA0 || n == 0x1680 || (0x2000 <= n
        && n <= 0x200A) || n == 0x2028 || n == 0x2029 || n == 0x202F || n == 0x205F || n == 0x3000
}

/// `s` without its leading white space.
pub open spec fn trim_start_spec(s: Seq<char>) -> Seq<char>
    decreases s.len(),
{
    if s.len() > 0 && is_space(s.first()) {
        trim_start_spec(s.drop_first())
    } else {
        s
    }
}

/// `s` without its trailing characters that satisfy `drop`.
pub open spec fn trim_end_by(s: Seq<char>, drop: spec_fn(char) -> bool) -> Seq<char>
    decreases s.len(),
{
    if s.len() > 0 && drop(s.last()) {
        trim_end_by(s.drop_last(), drop)
    } else {
        s
    }
}

/// `s` without leading and trailing white space.
pub open spec fn trim_spec(s: Seq<char>) -> Seq<char> {
    trim_end_by(trim_start_spec(s), |c: char| is_space(c))
}

/// `s` trimmed of surrounding white space, then of trailing NUL characters.
pub open spec fn clean_spec(s: Seq<char>) -> Seq<char> {
    trim_end_by(trim_spec(s), |c: char| c == '\0')
}

/// Leading white space can be skipped before trimming the start.
proof fn lemma_trim_start_skip(s: Seq<char>, k: int)
    requires
        0 <= k <= s.len(),
        forall|j: int| 0 <= j < k ==> is_space(#[trigger] s[j]),
    ensures
        trim_start_spec(s) == trim_start_spec(s.skip(k)),
    decreases k,
{
    if k == 0 {
        assert(s.skip(0) =~= s);
    } else {
        assert(is_space(s[0]));
        assert(s.drop_first().skip(k - 1) =~= s.skip(k));
        assert forall|j: int| 0 <= j < k - 1 implies is_space(#[trigger] s.drop_first()[j]) by {
            assert(s.drop_first()[j] == s[j + 1]);
        }
        lemma_trim_start_skip(s.drop_first(), k - 1);
    }
}

/// Trailing characters that are to be dropped can be cut before trimming the end.
proof fn lemma_trim_end_take(s: Seq<char>, k: int, drop: spec_fn(char) -> bool)
    requires
        0 <= k <= s.len(),
        forall|j: int| k <= j < s.len() ==> drop(#[trigger] s[j]),
    ensures
        trim_end_by(s, drop) == trim_end_by(s.take(k), drop),
    decreases s.len() - k,
{
    if k == s.len() {
        assert(s.take(k) =~= s);
    } else {
        assert(drop(s[s.len() - 1]));
        assert(s.drop_last().take(k) =~= s.take(k));
        assert forall|j: int| k <= j < s.drop_last().len() implies drop(
            #[trigger] s.drop_last()[j],
        ) by {
            assert(s.drop_last()[j] == s[j]);
        }
        lemma_trim_end_take(s.drop_last(), k, drop);
    }
}

/// Copies `v[from..to]`.
pub fn slice_chars(v: &Vec<char>, from: usize, to: usize) -> (r: Vec<char>)
    requires
        from <= to <= v@.len(),
    ensures
        r@ == v@.subrange(from as int, to as int),
{
    let mut out: Vec<char> = Vec::new();
    let mut i: usize = from;
    while i < to
        invariant
            from <= i <= to <= v@.len(),
            out@ == v@.subrange(from as int, i as int),
        decreases to - i,
    {
        out.push(v[i]);
        i += 1;
        assert(out@ =~= v@.subrange(from as int, i as int));
    }
    out
}

/// Trims white space from both ends, then NUL characters from the end.
pub fn clean(v: &Vec<char>) -> (r: Vec<char>)
    ensures
        r@ == clean_spec(v@),
{
    let n: usize = v.len();
    let mut start: usize = 0;
    while start < n && char_is_space(v[start])
        invariant
            n == v@.len(),
            start <= n,
            forall|j: int| 0 <= j < start ==> is_space(#[trigger] v@[j]),
        decreases n - start,
    {
        start += 1;
    }
    let mut end: usize = n;
    while end > start && char_is_space(v[end - 1])
        invariant
            n == v@.len(),
            start <= end <= n,
            forall|j: int| end <= j < n ==> is_space(#[trigger] v@[j]),
        decreases end,
    {
        end -= 1;
    }
    let ghost mid: usize = end;
    while end > start && v[end - 1] == '\0'
        invariant
            n == v@.len(),
            start <= end <= mid <= n,
            forall|j: int| end <= j < mid ==> #[trigger] v@[j] == '\0',
        decreases end,
    {
        end -= 1;
    }
    let out = slice_chars(v, start, end);
    proof {
        let is_sp = |c: char| is_space(c);
        let is_nul = |c: char| c == '\0';
        let a = v@.skip(start as int);
        lemma_trim_start_skip(v@, start as int);
        assert(trim_start_spec(a) == a) by {
            if a.len() > 0 {
                assert(a.first() == v@[start as int]);
            }
        }
        let b = a.take(mid - start);
        assert forall|j: int| mid - start <= j < a.len() implies is_sp(#[trigger] a[j]) by {
            assert(a[j] == v@[j + start]);
        }
        lemma_trim_end_take(a, mid - start, is_sp);
        assert(trim_end_by(b, is_sp) == b) by {
            if b.len() > 0 {
                assert(b.last() == v@[mid - 1]);
            }
        }
        assert(trim_spec(v@) == b);
        let c = b.take(end - start);
        assert forall|j: int| end - start <= j < b.len() implies is_nul(#[trigger] b[j]) by {
            assert(b[j] == v@[j + start]);
        }
        lemma_trim_end_take(b, end - start, is_nul);
        assert(trim_end_by(c, is_nul) == c) by {
            if c.len() > 0 {
                assert(c.last() == v@[end - 1]);
            }
        }
        assert(c =~= v@.subrange(start as int, end as int));
    }
    out
}


/// `s` with every space replaced by an underscore.
pub open spec fn underscored_spec(s: Seq<char>) -> Seq<char> {
    s.map_values(|c: char| if c == ' ' { '_' } else { c })
}

/// Replaces every space by an underscore.
pub fn underscored(v: &Vec<char>) -> (r: Vec<char>)
    ensures
        r@ == underscored_spec(v@),
{
    let mut out: Vec<char> = Vec::new();
    let mut i: usize = 0;
    while i < v.len()
        invariant
            i <= v@.len(),
            out@ == underscored_spec(v@.take(i as int)),
        decreases v@.len() - i,
    {
        let c = v[i];
        out.push(if c == ' ' { '_' } else { c });
        i += 1;
        assert(out@ =~= underscored_spec(v@.take(i as int)));
    }
    assert(v@.take(v@.len() as int) =~= v@);
    out
}

/// The pieces of `s` between occurrences of `sep`; always at least one piece.
pub open spec fn split_spec(s: Seq<char>, sep: char) -> Seq<Seq<char>>
    decreases s.len(),
{
    if s.len() == 0 {
        seq![Seq::<char>::empty()]
    } else {
        let init = split_spec(s.drop_last(), sep);
        if s.last() == sep {
            init.push(Seq::<char>::empty())
        } else {
            init.drop_last().push(init.last().push(s.last()))
        }
    }
}

/// The views of a vector of character vectors.
pub open spec fn views(v: Seq<Vec<char>>) -> Seq<Seq<char>> {
    v.map_values(|p: Vec<char>| p@)
}

/// Cuts `v` at every occurrence of `sep`.
pub fn split(v: &Vec<char>, sep: char) -> (r: Vec<Vec<char>>)
    ensures
        views(r@) == split_spec(v@, sep),
{
    let mut done: Vec<Vec<char>> = Vec::new();
    let mut cur: Vec<char> = Vec::new();
    let mut i: usize = 0;
    assert(v@.take(0) =~= Seq::<char>::empty());
    assert(views(done@).push(cur@) =~= seq![Seq::<char>::empty()]);
    while i < v.len()
        invariant
            i <= v@.len(),
            views(done@).push(cur@) == split_spec(v@.take(i as int), sep),
        decreases v@.len() - i,
    {
        let c = v[i];
        let ghost before = views(done@).push(cur@);
        let ghost old_done = done@;
        let ghost old_cur = cur@;
        proof {
            let t = v@.take(i + 1);
            assert(t.drop_last() =~= v@.take(i as int));
            assert(t.last() == c);
            assert(before.last() == old_cur);
            assert(before.drop_last() =~= views(old_done));
        }
        if c == sep {
            done.push(cur);
            cur = Vec::new();
            assert(views(done@) =~= before);
        } else {
            cur.push(c);
        }
        i += 1;
    }
    assert(v@.take(v@.len() as int) =~= v@);
    done.push(cur);
    assert(views(done@) =~= split_spec(v@, sep));
    done
}

/// The pieces joined with `sep` between neighbours.
pub open spec fn join_spec(parts: Seq<Seq<char>>, sep: Seq<char>) -> Seq<char>
    decreases parts.len(),
{
    if parts.len() == 0 {
        Seq::<char>::empty()
    } else if parts.len() == 1 {
        parts[0]
    } else {
        join_spec(parts.drop_last(), sep) + sep + parts.last()
    }
}

/// Appends the characters of `tail` to `out`.
pub fn extend_chars(out: &mut Vec<char>, tail: &Vec<char>)
    ensures
        final(out)@ == old(out)@ + tail@,
{
    let mut i: usize = 0;
    while i < tail.len()
        invariant
            i <= tail@.len(),
            out@ == old(out)@ + tail@.take(i as int),
        decreases tail@.len() - i,
    {
        out.push(tail[i]);
        i += 1;
        assert(out@ =~= old(out)@ + tail@.take(i as int));
    }
    assert(tail@.take(tail@.len() as int) =~= tail@);
}

/// Puts the pieces together with `sep` between neighbours.
pub fn join(parts: &Vec<Vec<char>>, sep: &Vec<char>) -> (r: Vec<char>)
    ensures
        r@ == join_spec(views(parts@), sep@),
{
    let mut out: Vec<char> = Vec::new();
    let mut i: usize = 0;
    while i < parts.len()
        invariant
            i <= parts@.len(),
            out@ == join_spec(views(parts@).take(i as int), sep@),
        decreases parts@.len() - i,
    {
        let ghost t = views(parts@).take(i + 1);
        proof {
            assert(t.drop_last() =~= views(parts@).take(i as int));
            assert(t.last() == parts@[i as int]@);
        }
        if i > 0 {
            extend_chars(&mut out, sep);
        }
        extend_chars(&mut out, &parts[i]);
        proof {
            if i == 0 {
                assert(t[0] == parts@[0]@);
                assert(out@ =~= t[0]);
            }
        }
        i += 1;
    }
    assert(views(parts@).take(parts@.len() as int) =~= views(parts@));
    out
}

/// Whether `c` is an ASCII decimal digit.
pub open spec fn is_digit(c: char) -> bool {
    '0' <= c <= '9'
}

/// The decimal digits of `s`, in order, everything else left out.
pub open spec fn digits_of(s: Seq<char>) -> Seq<char>
    decreases s.len(),
{
    if s.len() == 0 {
        s
    } else if is_digit(s.last()) {
        digits_of(s.drop_last()).push(s.last())
    } else {
        digits_of(s.drop_last())
    }
}

/// Keeps the decimal digits of `v`.
pub fn digits(v: &Vec<char>) -> (r: Vec<char>)
    ensures
        r@ == digits_of(v@),
{
    let mut out: Vec<char> = Vec::new();
    let mut i: usize = 0;
    assert(v@.take(0) =~= Seq::<char>::empty());
    while i < v.len()
        invariant
            i <= v@.len(),
            out@ == digits_of(v@.take(i as int)),
        decreases v@.len() - i,
    {
        let c = v[i];
        proof {
            let t = v@.take(i + 1);
            assert(t.drop_last() =~= v@.take(i as int));
            assert(t.last() == c);
        }
        if '0' <= c && c <= '9' {
            out.push(c);
        }
        i += 1;
    }
    assert(v@.take(v@.len() as int) =~= v@);
    out
}

/// Whether `needle` occurs in `hay` at position `at`.
pub open spec fn occurs_at(hay: Seq<char>, needle: Seq<char>, at: int) -> bool {
    0 <= at && at + needle.len() <= hay.len() && hay.subrange(at, at + needle.len()) == needle
}

/// Whether `needle` occurs somewhere in `hay` as a contiguous run.
pub open spec fn contains_spec(hay: Seq<char>, needle: Seq<char>) -> bool {
    exists|at: int| occurs_at(hay, needle, at)
}

/// Whether `hay` begins with `prefix`.
pub open spec fn starts_with_spec(hay: Seq<char>, prefix: Seq<char>) -> bool {
    occurs_at(hay, prefix, 0)
}

/// Whether `needle` occurs in `hay` at position `at`.
pub fn matches_at(hay: &Vec<char>, needle: &Vec<char>, at: usize) -> (r: bool)
    ensures
        r == occurs_at(hay@, needle@, at as int),
{
    if at > hay.len() || needle.len() > hay.len() - at {
        return false;
    }
    let mut k: usize = 0;
    while k < needle.len()
        invariant
            k <= needle@.len(),
            at + needle@.len() <= hay@.len() <= usize::MAX,
            forall|j: int| 0 <= j < k ==> hay@[at + j] == needle@[j],
        decreases needle@.len() - k,
    {
        if hay[at + k] != needle[k] {
            proof {
                let sub = hay@.subrange(at as int, at + needle@.len());
                assert(sub[k as int] != needle@[k as int]);
            }
            return false;
        }
        k += 1;
    }
    assert(hay@.subrange(at as int, at + needle@.len()) =~= needle@);
    true
}

/// Whether `needle` occurs somewhere in `hay`.
pub fn contains(hay: &Vec<char>, needle: &Vec<char>) -> (r: bool)
    ensures
        r == contains_spec(hay@, needle@),
{
    if needle.len() > hay.len() {
        return false;
    }
    let last: usize = hay.len() - needle.len();
    let mut at: usize = 0;
    while at < last
        invariant
            last == hay@.len() - needle@.len(),
            at <= last,
            forall|j: int| 0 <= j < at ==> !occurs_at(hay@, needle@, j),
        decreases last - at,
    {
        if matches_at(hay, needle, at) {
            return true;
        }
        at += 1;
    }
    matches_at(hay, needle, last)
}

/// Whether `hay` begins with `prefix`.
pub fn starts_with(hay: &Vec<char>, prefix: &Vec<char>) -> (r: bool)
    ensures
        r == starts_with_spec(hay@, prefix@),
{
    matches_at(hay, prefix, 0)
}


/// The character of a single decimal digit.
pub open spec fn digit_char(d: nat) -> char
    recommends
        d < 10,
{
    ((48 + d) as u8) as char
}

/// `n` in decimal, without sign or leading zeros.
pub open spec fn decimal_spec(n: nat) -> Seq<char>
    decreases n,
{
    if n < 10 {
        seq![digit_char(n)]
    } else {
        decimal_spec(n / 10).push(digit_char(n % 10))
    }
}

/// `n` in decimal, with a leading minus sign when negative.
pub open spec fn signed_decimal_spec(n: int) -> Seq<char> {
    if n < 0 {
        seq!['-'] + decimal_spec((-n) as nat)
    } else {
        decimal_spec(n as nat)
    }
}

/// `n` in decimal, padded with a zero to two digits.
pub open spec fn two_digit_spec(n: nat) -> Seq<char> {
    if n < 10 {
        seq!['0', digit_char(n)]
    } else {
        decimal_spec(n)
    }
}

/// Writes `n` in decimal.
pub fn decimal(n: u64) -> (r: Vec<char>)
    ensures
        r@ == decimal_spec(n as nat),
{
    let mut rev: Vec<char> = Vec::new();
    let mut m: u64 = n;
    loop
        invariant_except_break
            decimal_spec(n as nat) == decimal_spec(m as nat) + rev@.reverse(),
        ensures
            decimal_spec(n as nat) == rev@.reverse(),
        decreases m,
    {
        let d: u8 = (m % 10) as u8;
        let ghost before = rev@;
        rev.push((48u8 + d) as char);
        assert(rev@.reverse() =~= seq![digit_char((m % 10) as nat)] + before.reverse());
        if m < 10 {
            assert(decimal_spec(m as nat) + before.reverse() =~= rev@.reverse());
            break;
        }
        assert(decimal_spec(m as nat) + before.reverse() =~= decimal_spec((m / 10) as nat)
            + rev@.reverse());
        m = m / 10;
    }
    let mut out: Vec<char> = Vec::new();
    let len: usize = rev.len();
    let mut i: usize = 0;
    while i < len
        invariant
            len == rev@.len(),
            i <= len,
            out@ == rev@.reverse().take(i as int),
        decreases len - i,
    {
        out.push(rev[len - 1 - i]);
        i += 1;
        assert(out@ =~= rev@.reverse().take(i as int));
    }
    assert(rev@.reverse().take(len as int) =~= rev@.reverse());
    out
}

/// Writes `n` in decimal, with its sign where it is negative.
pub fn signed_decimal(n: i64) -> (r: Vec<char>)
    ensures
        r@ == signed_decimal_spec(n as int),
{
    if n < 0 {
        let magnitude: u64 = (-(n as i128)) as u64;
        let mut out: Vec<char> = Vec::new();
        out.push('-');
        let body = decimal(magnitude);
        extend_chars(&mut out, &body);
        assert(out@ =~= seq!['-'] + body@);
        out
    } else {
        decimal(n as u64)
    }
}

/// `s` cut to `limit` characters and marked with three dots when longer.
pub open spec fn capped_spec(s: Seq<char>, limit: nat) -> Seq<char> {
    if s.len() > limit {
        s.take(limit as int) + seq!['.', '.', '.']
    } else {
        s
    }
}

/// Cuts `v` to `limit` characters and marks the cut with three dots.
pub fn capped(v: Vec<char>, limit: usize) -> (r: Vec<char>)
    ensures
        r@ == capped_spec(v@, limit as nat),
{
    if v.len() > limit {
        let mut out = slice_chars(&v, 0, limit);
        out.push('.');
        out.push('.');
        out.push('.');
        assert(out@ =~= v@.take(limit as int) + seq!['.', '.', '.']);
        out
    } else {
        v
    }
}


/// Whether two texts hold the same characters.
pub fn same_chars(a: &Vec<char>, b: &Vec<char>) -> (r: bool)
    ensures
        r == (a@ == b@),
{
    if a.len() != b.len() {
        return false;
    }
    let mut i: usize = 0;
    while i < a.len()
        invariant
            a@.len() == b@.len(),
            i <= a@.len(),
            forall|j: int| 0 <= j < i ==> a@[j] == b@[j],
        decreases a@.len() - i,
    {
        if a[i] != b[i] {
            return false;
        }
        i += 1;
    }
    assert(a@ =~= b@);
    true
}

/// Whether `item` is one of the texts of `list`.
pub fn is_member(list: &Vec<Vec<char>>, item: &Vec<char>) -> (r: bool)
    ensures
        r == views(list@).contains(item@),
{
    let mut i: usize = 0;
    while i < list.len()
        invariant
            i <= list@.len(),
            forall|j: int| 0 <= j < i ==> views(list@)[j] != item@,
        decreases list@.len() - i,
    {
        if same_chars(&list[i], item) {
            assert(views(list@)[i as int] == item@);
            return true;
        }
        i += 1;
    }
    false
}

/// The first occurrence of each text of `s`, in the order of `s`.
pub open spec fn first_occurrences(s: Seq<Seq<char>>) -> Seq<Seq<char>>
    decreases s.len(),
{
    if s.len() == 0 {
        s
    } else if s.drop_last().contains(s.last()) {
        first_occurrences(s.drop_last())
    } else {
        first_occurrences(s.drop_last()).push(s.last())
    }
}

/// Keeping first occurrences keeps every text of the list, and each once.
pub proof fn lemma_first_occurrences(s: Seq<Seq<char>>)
    ensures
        first_occurrences(s).no_duplicates(),
        forall|x: Seq<char>| first_occurrences(s).contains(x) <==> s.contains(x),
    decreases s.len(),
{
    if s.len() > 0 {
        let init = s.drop_last();
        let last = s.last();
        lemma_first_occurrences(init);
        let kept = first_occurrences(init);
        assert forall|x: Seq<char>| first_occurrences(s).contains(x) <==> s.contains(x) by {
            if s.contains(x) {
                let i = choose|i: int| 0 <= i < s.len() && s[i] == x;
                if i < init.len() {
                    assert(init[i] == x);
                    assert(init.contains(x));
                    let k = choose|k: int| 0 <= k < kept.len() && kept[k] == x;
                    assert(first_occurrences(s)[k] == x);
                } else {
                    assert(x == last);
                    if init.contains(last) {
                        assert(kept.contains(x));
                    } else {
                        assert(first_occurrences(s)[kept.len() as int] == x);
                    }
                }
            }
            if first_occurrences(s).contains(x) {
                let k = choose|k: int|
                    0 <= k < first_occurrences(s).len() && first_occurrences(s)[k] == x;
                if k < kept.len() {
                    assert(kept[k] == x);
                    assert(kept.contains(x));
                    assert(init.contains(x));
                    let i = choose|i: int| 0 <= i < init.len() && init[i] == x;
                    assert(s[i] == x);
                } else {
                    assert(!init.contains(last));
                    assert(first_occurrences(s) == kept.push(last));
                    assert(s[s.len() - 1] == x);
                }
            }
        }
        if !init.contains(last) {
            assert(!kept.contains(last));
        }
    }
}

/// Keeps the first occurrence of each text.
pub fn dedup(list: Vec<Vec<char>>) -> (r: Vec<Vec<char>>)
    ensures
        views(r@) == first_occurrences(views(list@)),
{
    let mut out: Vec<Vec<char>> = Vec::new();
    let mut list = list;
    let ghost all = views(list@);
    let n: usize = list.len();
    let mut i: usize = 0;
    assert(all.take(0) =~= Seq::<Seq<char>>::empty());
    while i < n
        invariant
            n == list@.len(),
            i <= n,
            all.len() == n,
            forall|j: int| i <= j < n ==> (#[trigger] list@[j])@ == all[j],
            views(out@) == first_occurrences(all.take(i as int)),
        decreases n - i,
    {
        let mut item: Vec<char> = Vec::new();
        std::mem::swap(&mut item, &mut list[i]);
        proof {
            let t = all.take(i + 1);
            assert(t.drop_last() =~= all.take(i as int));
            assert(t.last() == item@);
            lemma_first_occurrences(all.take(i as int));
        }
        let ghost before = views(out@);
        if !is_member(&out, &item) {
            out.push(item);
            assert(views(out@) =~= before.push(all[i as int]));
        }
        i += 1;
    }
    assert(all.take(n as int) =~= all);
    out
}


/// The number that a run of decimal digits writes.
pub open spec fn value_of(digits: Seq<char>) -> nat
    decreases digits.len(),
{
    if digits.len() == 0 {
        0
    } else {
        (value_of(digits.drop_last()) * 10 + (digits.last() as u32 - 48)) as nat
    }
}

/// Whether every character of `s` is a decimal digit.
pub open spec fn all_digits(s: Seq<char>) -> bool {
    forall|i: int| 0 <= i < s.len() ==> is_digit(#[trigger] s[i])
}

/// The decimal form of a number is made of digits and writes that number.
pub proof fn lemma_decimal(n: nat)
    ensures
        decimal_spec(n).len() >= 1,
        all_digits(decimal_spec(n)),
        value_of(decimal_spec(n)) == n,
    decreases n,
{
    if n < 10 {
        let s = seq![digit_char(n)];
        assert(s.drop_last() =~= Seq::<char>::empty());
        assert(value_of(s.drop_last()) == 0);
        assert(s.last() == digit_char(n));
    } else {
        lemma_decimal(n / 10);
        let init = decimal_spec(n / 10);
        let s = init.push(digit_char(n % 10));
        assert(s.drop_last() =~= init);
        assert(s.last() == digit_char(n % 10));
        assert forall|i: int| 0 <= i < s.len() implies is_digit(#[trigger] s[i]) by {
            if i < init.len() {
                assert(is_digit(init[i]));
            }
        }
    }
}

/// The two-digit form of a number is made of digits and writes that number.
pub proof fn lemma_two_digit(n: nat)
    ensures
        two_digit_spec(n).len() >= 2,
        all_digits(two_digit_spec(n)),
        value_of(two_digit_spec(n)) == n,
{
    if n < 10 {
        let s = seq!['0', digit_char(n)];
        assert(s.drop_last() =~= seq!['0']);
        assert(seq!['0'].drop_last() =~= Seq::<char>::empty());
        assert(value_of(seq!['0'].drop_last()) == 0);
        assert(value_of(seq!['0']) == 0);
        assert(s.last() == digit_char(n));
    } else {
        lemma_decimal(n);
        lemma_decimal(n / 10);
    }
}


/// Cleaning leaves a text as it is where it neither begins nor ends with
/// white space and does not end with a NUL character.
pub proof fn lemma_clean_keeps(s: Seq<char>)
    requires
        s.len() > 0,
        !is_space(s.first()),
        !is_space(s.last()),
        s.last() != '\0',
    ensures
        clean_spec(s) == s,
{
}


/// Whether the characters of `part` occur in `whole` in the same order,
/// not needfully side by side.
pub open spec fn is_subsequence(part: Seq<char>, whole: Seq<char>) -> bool
    decreases whole.len(),
{
    if part.len() == 0 {
        true
    } else if whole.len() == 0 {
        false
    } else if part.first() == whole.first() {
        is_subsequence(part.drop_first(), whole.drop_first())
    } else {
        is_subsequence(part, whole.drop_first())
    }
}

/// Whether the characters of `part` occur in `whole` in the same order.
pub fn occurs_in_order(part: &Vec<char>, whole: &Vec<char>) -> (r: bool)
    ensures
        r == is_subsequence(part@, whole@),
{
    let mut i: usize = 0;
    let mut j: usize = 0;
    assert(part@.skip(0) =~= part@);
    assert(whole@.skip(0) =~= whole@);
    while i < part.len() && j < whole.len()
        invariant
            i <= part@.len(),
            j <= whole@.len(),
            is_subsequence(part@, whole@) == is_subsequence(
                part@.skip(i as int),
                whole@.skip(j as int),
            ),
        decreases whole@.len() - j,
    {
        proof {
            let p = part@.skip(i as int);
            let w = whole@.skip(j as int);
            assert(p.first() == part@[i as int]);
            assert(w.first() == whole@[j as int]);
            assert(p.drop_first() =~= part@.skip(i + 1));
            assert(w.drop_first() =~= whole@.skip(j + 1));
        }
        if part[i] == whole[j] {
            i += 1;
        }
        j += 1;
    }
    i == part.len()
}

/// Whether every character of `v` is a decimal digit.
pub fn only_digits(v: &Vec<char>) -> (r: bool)
    ensures
        r == all_digits(v@),
{
    let mut i: usize = 0;
    while i < v.len()
        invariant
            i <= v@.len(),
            forall|j: int| 0 <= j < i ==> is_digit(#[trigger] v@[j]),
        decreases v@.len() - i,
    {
        let c = v[i];
        if !('0' <= c && c <= '9') {
            return false;
        }
        i += 1;
    }
    true
}


/// The decimal form of the number that follows the one `digits` write: the
/// last digit goes up by one, and a nine becomes a zero and carries.
pub open spec fn successor_spec(digits: Seq<char>) -> Seq<char>
    decreases digits.len(),
{
    if digits.len() == 0 {
        seq!['1']
    } else if digits.last() == '9' {
        successor_spec(digits.drop_last()).push('0')
    } else {
        digits.drop_last().push(((digits.last() as u8 + 1) as u8) as char)
    }
}

/// The successor of the decimal form of a number is the decimal form of the
/// next number.
pub proof fn lemma_successor(n: nat)
    ensures
        successor_spec(decimal_spec(n)) == decimal_spec(n + 1),
    decreases n,
{
    let digits = decimal_spec(n);
    if n < 10 {
        assert(digits.drop_last() =~= Seq::<char>::empty());
        assert(digits.last() == digit_char(n));
        if n == 9 {
            assert(successor_spec(digits.drop_last()) == seq!['1']);
            reveal_with_fuel(decimal_spec, 2);
            assert(decimal_spec(10) =~= seq!['1'].push('0'));
        } else {
            assert(successor_spec(digits) =~= seq![digit_char(n + 1)]);
        }
    } else {
        let init = decimal_spec(n / 10);
        assert(digits.drop_last() =~= init);
        assert(digits.last() == digit_char(n % 10));
        if n % 10 == 9 {
            lemma_successor(n / 10);
            assert((n + 1) / 10 == n / 10 + 1 && (n + 1) % 10 == 0);
        } else {
            assert((n + 1) / 10 == n / 10 && (n + 1) % 10 == n % 10 + 1);
        }
    }
}

/// Writes the number that follows the one `digits` write.
pub fn next_decimal(digits: Vec<char>) -> (r: Vec<char>)
    requires
        all_digits(digits@),
    ensures
        r@ == successor_spec(digits@),
    decreases digits@.len(),
{
    let mut rest = digits;
    match rest.pop() {
        None => {
            let r: Vec<char> = vec!['1'];
            assert(r@ =~= seq!['1']);
            r
        },
        Some(last) => {
            assert(rest@ =~= digits@.drop_last());
            assert(last == digits@.last());
            assert(is_digit(digits@[digits@.len() - 1]));
            if last == '9' {
                assert forall|i: int| 0 <= i < rest@.len() implies is_digit(#[trigger] rest@[i]) by {
                    assert(rest@[i] == digits@[i]);
                }
                let mut r = next_decimal(rest);
                r.push('0');
                r
            } else {
                rest.push(((last as u8) + 1) as char);
                rest
            }
        },
    }
}

} // verus!
