use vstd::prelude::*;

verus! {

/// The characters of each vector of a sequence.
pub open spec fn seq_views(v: Seq<Vec<char>>) -> Seq<Seq<char>> {
    v.map_values(|x: Vec<char>| x@)
}

pub proof fn lemma_seq_views_push(v: Seq<Vec<char>>, x: Vec<char>)
    ensures
        seq_views(v.push(x)) == seq_views(v).push(x@),
{
    assert(seq_views(v.push(x)) =~= seq_views(v).push(x@));
}

/// The characters of `s`.
pub fn to_chars(s: &str) -> (r: Vec<char>)
    ensures
        r@ == s@,
{
    let mut r: Vec<char> = Vec::new();
    for c in it: s.chars()
        invariant
            r@ == it.seq().take(it.index() as int),
    {
        r.push(c);
    }
    r
}

/// The string made of the characters `cs`.
///
/// Calls std's `FromIterator<&char>` for `String`, which appends the
/// characters in order; the contract claims exactly that.
#[verifier::external_body]
pub(crate) fn string_of(cs: &[char]) -> (s: String)
    ensures
        s@ == cs@,
{
    String::from_iter(cs)
}

/// A copy of `s[from..to]`.
pub fn copy_range(s: &Vec<char>, from: usize, to: usize) -> (r: Vec<char>)
    requires
        from <= to <= s@.len(),
    ensures
        r@ == s@.subrange(from as int, to as int),
{
    vstd::slice::slice_to_vec(vstd::slice::slice_subrange(s.as_slice(), from, to))
}

/// Unicode `White_Space`, the set that std's `char::is_whitespace` tests.
pub open spec fn is_ws(c: char) -> bool {
    let u = c as u32;
    (0x9 <= u && u <= 0xd) || u == 0x20 || u == 0x85 || u == 0xa0 || u == 0x1680 || (0x2000 <= u
        && u <= 0x200a) || u == 0x2028 || u == 0x2029 || u == 0x202f || u == 0x205f || u == 0x3000
}

pub fn is_whitespace(c: char) -> (b: bool)
    ensures
        b == is_ws(c),
{
    let u = c as u32;
    (0x9 <= u && u <= 0xd) || u == 0x20 || u == 0x85 || u == 0xa0 || u == 0x1680 || (0x2000 <= u
        && u <= 0x200a) || u == 0x2028 || u == 0x2029 || u == 0x202f || u == 0x205f || u == 0x3000
}

/// A set of characters that scans stop at or run over.
#[derive(Clone, Copy)]
pub enum CharClass {
    Space,
    NonSpace,
    Exactly(char),
}

pub open spec fn class_has(cls: CharClass, c: char) -> bool {
    match cls {
        CharClass::Space => is_ws(c),
        CharClass::NonSpace => !is_ws(c),
        CharClass::Exactly(x) => c == x,
    }
}

pub fn in_class(cls: CharClass, c: char) -> (b: bool)
    ensures
        b == class_has(cls, c),
{
    match cls {
        CharClass::Space => is_whitespace(c),
        CharClass::NonSpace => !is_whitespace(c),
        CharClass::Exactly(x) => c == x,
    }
}

/// How many characters at the start of `s` belong to `cls`.
pub open spec fn lead_count(s: Seq<char>, cls: CharClass) -> nat
    decreases s.len(),
{
    if s.len() == 0 || !class_has(cls, s[0]) {
        0
    } else {
        1 + lead_count(s.drop_first(), cls)
    }
}

/// How many characters at the end of `s` belong to `cls`.
pub open spec fn trail_count(s: Seq<char>, cls: CharClass) -> nat
    decreases s.len(),
{
    if s.len() == 0 || !class_has(cls, s.last()) {
        0
    } else {
        1 + trail_count(s.drop_last(), cls)
    }
}

pub proof fn lemma_lead_count(s: Seq<char>, cls: CharClass, n: int)
    requires
        0 <= n <= s.len(),
        forall|k: int| 0 <= k < n ==> class_has(cls, #[trigger] s[k]),
        n == s.len() || !class_has(cls, s[n]),
    ensures
        lead_count(s, cls) == n,
    decreases n,
{
    if n > 0 {
        assert forall|k: int| 0 <= k < n - 1 implies class_has(cls, #[trigger] s.drop_first()[k]) by {
            assert(s.drop_first()[k] == s[k + 1]);
        }
        if n < s.len() {
            assert(s.drop_first()[n - 1] == s[n]);
        }
        lemma_lead_count(s.drop_first(), cls, n - 1);
    }
}

pub proof fn lemma_lead_count_bound(s: Seq<char>, cls: CharClass)
    ensures
        lead_count(s, cls) <= s.len(),
        forall|k: int| 0 <= k < lead_count(s, cls) ==> class_has(cls, #[trigger] s[k]),
        lead_count(s, cls) == s.len() || !class_has(cls, s[lead_count(s, cls) as int]),
    decreases s.len(),
{
    if s.len() > 0 && class_has(cls, s[0]) {
        lemma_lead_count_bound(s.drop_first(), cls);
        assert forall|k: int| 0 <= k < lead_count(s, cls) implies class_has(cls, #[trigger] s[k]) by {
            if k > 0 {
                assert(s[k] == s.drop_first()[k - 1]);
            }
        }
    }
}

pub proof fn lemma_trail_count(s: Seq<char>, cls: CharClass, n: int)
    requires
        0 <= n <= s.len(),
        forall|k: int| s.len() - n <= k < s.len() ==> class_has(cls, #[trigger] s[k]),
        n == s.len() || !class_has(cls, s[s.len() - n - 1]),
    ensures
        trail_count(s, cls) == n,
    decreases n,
{
    if n > 0 {
        assert forall|k: int| s.drop_last().len() - (n - 1) <= k < s.drop_last().len() implies class_has(
            cls,
            #[trigger] s.drop_last()[k],
        ) by {
            assert(s.drop_last()[k] == s[k]);
        }
        if n < s.len() {
            assert(s.drop_last()[s.drop_last().len() - (n - 1) - 1] == s[s.len() - n - 1]);
        }
        lemma_trail_count(s.drop_last(), cls, n - 1);
    }
}

/// The number of characters at the start of `s` that belong to `cls`.
pub fn leading_count(s: &Vec<char>, cls: CharClass) -> (n: usize)
    ensures
        n == lead_count(s@, cls),
{
    let mut i: usize = 0;
    while i < s.len() && in_class(cls, s[i])
        invariant
            i <= s@.len(),
            forall|k: int| 0 <= k < i ==> class_has(cls, #[trigger] s@[k]),
        decreases s@.len() - i,
    {
        i = i + 1;
    }
    proof {
        lemma_lead_count(s@, cls, i as int);
    }
    i
}

/// The number of characters at the end of `s` that belong to `cls`.
pub fn trailing_count(s: &Vec<char>, cls: CharClass) -> (n: usize)
    ensures
        n == trail_count(s@, cls),
{
    let mut i: usize = 0;
    while i < s.len() && in_class(cls, s[s.len() - 1 - i])
        invariant
            i <= s@.len(),
            forall|k: int| s@.len() - i <= k < s@.len() ==> class_has(cls, #[trigger] s@[k]),
        decreases s@.len() - i,
    {
        i = i + 1;
    }
    proof {
        lemma_trail_count(s@, cls, i as int);
    }
    i
}

/// The index of the first `c` in `s`, or the length of `s` if there is none.
pub open spec fn idx_of(s: Seq<char>, c: char) -> nat
    decreases s.len(),
{
    if s.len() == 0 || s[0] == c {
        0
    } else {
        1 + idx_of(s.drop_first(), c)
    }
}

pub proof fn lemma_idx_of(s: Seq<char>, c: char, n: int)
    requires
        0 <= n <= s.len(),
        forall|k: int| 0 <= k < n ==> #[trigger] s[k] != c,
        n == s.len() || s[n] == c,
    ensures
        idx_of(s, c) == n,
    decreases n,
{
    if n > 0 {
        assert forall|k: int| 0 <= k < n - 1 implies #[trigger] s.drop_first()[k] != c by {
            assert(s.drop_first()[k] == s[k + 1]);
        }
        if n < s.len() {
            assert(s.drop_first()[n - 1] == s[n]);
        }
        lemma_idx_of(s.drop_first(), c, n - 1);
    }
}

/// The index of the first `c` in `s` at or after `from`, or the length of `s`.
pub fn find_char_from(s: &Vec<char>, from: usize, c: char) -> (j: usize)
    requires
        from <= s@.len(),
    ensures
        from <= j <= s@.len(),
        j - from == idx_of(s@.skip(from as int), c),
{
    let mut j: usize = from;
    while j < s.len() && s[j] != c
        invariant
            from <= j <= s@.len(),
            forall|k: int| from <= k < j ==> #[trigger] s@[k] != c,
        decreases s@.len() - j,
    {
        j = j + 1;
    }
    proof {
        let t = s@.skip(from as int);
        assert forall|k: int| 0 <= k < j - from implies #[trigger] t[k] != c by {
            assert(t[k] == s@[k + from]);
        }
        lemma_idx_of(t, c, j - from);
    }
    j
}

/// A line without the carriage return that ended it.
pub open spec fn strip_cr(l: Seq<char>) -> Seq<char> {
    if l.len() > 0 && l.last() == '\r' {
        l.drop_last()
    } else {
        l
    }
}

/// The lines of `s` as std's `str::lines` gives them: split at each `\n`,
/// each line losing a `\r` that stood right before its `\n`; a last `\n`
/// starts no further line.
pub open spec fn spec_lines(s: Seq<char>) -> Seq<Seq<char>>
    decreases s.len(),
{
    if s.len() == 0 {
        seq![]
    } else {
        let i = idx_of(s, '\n');
        if i >= s.len() {
            seq![s]
        } else {
            seq![strip_cr(s.take(i as int))] + spec_lines(s.skip(i + 1 as int))
        }
    }
}

/// The lines of `s`.
pub fn split_lines(s: &Vec<char>) -> (r: Vec<Vec<char>>)
    ensures
        seq_views(r@) == spec_lines(s@),
{
    let n = s.len();
    let mut out: Vec<Vec<char>> = Vec::new();
    let mut i: usize = 0;
    assert(s@.skip(0) =~= s@);
    assert(seq_views(out@) =~= Seq::<Seq<char>>::empty());
    while i < n
        invariant
            i <= n,
            n == s@.len(),
            seq_views(out@) + spec_lines(s@.skip(i as int)) == spec_lines(s@),
        decreases n - i,
    {
        let j = find_char_from(s, i, '\n');
        let ghost t = s@.skip(i as int);
        let mut line = copy_range(s, i, j);
        assert(line@ =~= t.take((j - i) as int));
        if j < n && line.len() > 0 && line[line.len() - 1] == '\r' {
            line.pop();
        }
        let ghost old_out = out@;
        out.push(line);
        proof {
            lemma_seq_views_push(old_out, out@.last());
            assert(old_out.push(out@.last()) == out@);
        }
        if j < n {
            assert(t.skip((j - i) + 1) =~= s@.skip(j + 1));
            i = j + 1;
        } else {
            assert(t.take((j - i) as int) =~= t);
            i = n;
            assert(s@.skip(n as int) =~= Seq::<char>::empty());
        }
        assert(seq_views(out@) + spec_lines(s@.skip(i as int)) =~= seq_views(old_out) + spec_lines(t));
    }
    assert(s@.skip(n as int) =~= Seq::<char>::empty());
    assert(seq_views(out@) + spec_lines(s@.skip(n as int)) =~= seq_views(out@));
    out
}

/// The whitespace-separated words of `s`, as std's `str::split_whitespace`
/// gives them.
pub open spec fn ws_tokens(s: Seq<char>) -> Seq<Seq<char>>
    decreases s.len(),
{
    if s.len() == 0 {
        seq![]
    } else if is_ws(s[0]) {
        ws_tokens(s.drop_first())
    } else {
        let n = lead_count(s, CharClass::NonSpace);
        proof {
            lemma_lead_count_bound(s, CharClass::NonSpace);
        }
        seq![s.take(n as int)] + ws_tokens(s.skip(n as int))
    }
}

/// The whitespace-separated words of `s`.
pub fn split_whitespace(s: &Vec<char>) -> (r: Vec<Vec<char>>)
    ensures
        seq_views(r@) == ws_tokens(s@),
{
    let n = s.len();
    let mut out: Vec<Vec<char>> = Vec::new();
    let mut i: usize = 0;
    assert(s@.skip(0) =~= s@);
    assert(seq_views(out@) =~= Seq::<Seq<char>>::empty());
    while i < n
        invariant
            i <= n,
            n == s@.len(),
            seq_views(out@) + ws_tokens(s@.skip(i as int)) == ws_tokens(s@),
        decreases n - i,
    {
        let ghost t = s@.skip(i as int);
        if is_whitespace(s[i]) {
            assert(t.drop_first() =~= s@.skip(i + 1));
            i = i + 1;
        } else {
            let mut j: usize = i;
            while j < n && !is_whitespace(s[j])
                invariant
                    i <= j <= n,
                    n == s@.len(),
                    forall|k: int| i <= k < j ==> !is_ws(#[trigger] s@[k]),
                decreases n - j,
            {
                j = j + 1;
            }
            proof {
                assert forall|k: int| 0 <= k < j - i implies class_has(CharClass::NonSpace, #[trigger] t[k]) by {
                    assert(t[k] == s@[k + i]);
                }
                lemma_lead_count(t, CharClass::NonSpace, j - i);
            }
            let word = copy_range(s, i, j);
            assert(word@ =~= t.take((j - i) as int));
            let ghost old_out = out@;
            out.push(word);
            proof {
                lemma_seq_views_push(old_out, out@.last());
                assert(old_out.push(out@.last()) == out@);
            }
            assert(t.skip((j - i) as int) =~= s@.skip(j as int));
            i = j;
            assert(seq_views(out@) + ws_tokens(s@.skip(i as int)) =~= seq_views(old_out) + ws_tokens(t));
        }
    }
    assert(s@.skip(n as int) =~= Seq::<char>::empty());
    assert(seq_views(out@) + ws_tokens(s@.skip(n as int)) =~= seq_views(out@));
    out
}

/// The first word of `s`, if it has one.
pub open spec fn first_word(s: Seq<char>) -> Option<Seq<char>> {
    if ws_tokens(s).len() > 0 {
        Some(ws_tokens(s)[0])
    } else {
        None
    }
}

/// Whether `p` stands in `s` at index `i`.
pub open spec fn occurs_at(s: Seq<char>, p: Seq<char>, i: int) -> bool {
    0 <= i && i + p.len() <= s.len() && s.subrange(i, i + p.len()) == p
}

/// The first index at or after `i` where `p` stands in `s`.
pub open spec fn find_from(s: Seq<char>, p: Seq<char>, i: nat) -> Option<nat>
    decreases s.len() + 1 - i,
{
    if i + p.len() > s.len() {
        None
    } else if occurs_at(s, p, i as int) {
        Some(i)
    } else {
        find_from(s, p, i + 1)
    }
}

/// The first index where `p` stands in `s`, as std's `str::find` gives it
/// (counted in characters).
pub open spec fn find(s: Seq<char>, p: Seq<char>) -> Option<nat> {
    find_from(s, p, 0)
}

pub open spec fn contains(s: Seq<char>, p: Seq<char>) -> bool {
    find(s, p) is Some
}

pub open spec fn starts_with(s: Seq<char>, p: Seq<char>) -> bool {
    occurs_at(s, p, 0)
}

pub open spec fn ends_with(s: Seq<char>, p: Seq<char>) -> bool {
    occurs_at(s, p, s.len() - p.len())
}

/// Whether `p` stands in `s` at index `i`.
pub fn matches_at(s: &Vec<char>, p: &Vec<char>, i: usize) -> (b: bool)
    ensures
        b == occurs_at(s@, p@, i as int),
{
    if i > s.len() || p.len() > s.len() - i {
        return false;
    }
    let mut k: usize = 0;
    while k < p.len()
        invariant
            i + p@.len() <= s@.len(),
            s@.len() == s.len(),
            k <= p@.len(),
            forall|m: int| 0 <= m < k ==> s@[i + m] == #[trigger] p@[m],
        decreases p@.len() - k,
    {
        if s[i + k] != p[k] {
            assert(s@.subrange(i as int, i + p@.len())[k as int] == s@[i + k]);
            return false;
        }
        k = k + 1;
    }
    assert(s@.subrange(i as int, i + p@.len()) =~= p@);
    true
}

/// The first index where `p` stands in `s`.
pub fn find_seq(s: &Vec<char>, p: &Vec<char>) -> (r: Option<usize>)
    ensures
        match r {
            Some(i) => find(s@, p@) == Some(i as nat),
            None => find(s@, p@) is None,
        },
{
    if p.len() > s.len() {
        return None;
    }
    let last = s.len() - p.len();
    let mut i: usize = 0;
    loop
        invariant
            i <= last,
            last + p@.len() == s@.len(),
            find(s@, p@) == find_from(s@, p@, i as nat),
        decreases last - i,
    {
        if matches_at(s, p, i) {
            return Some(i);
        }
        if i == last {
            assert(find_from(s@, p@, (i + 1) as nat) is None);
            return None;
        }
        i = i + 1;
    }
}

/// Whether `p` stands anywhere in `s`.
pub fn contains_seq(s: &Vec<char>, p: &Vec<char>) -> (b: bool)
    ensures
        b == contains(s@, p@),
{
    find_seq(s, p).is_some()
}

/// Whether `s` starts with `p`.
pub fn starts_with_seq(s: &Vec<char>, p: &Vec<char>) -> (b: bool)
    ensures
        b == starts_with(s@, p@),
{
    matches_at(s, p, 0)
}

/// Whether `s` ends with `p`.
pub fn ends_with_seq(s: &Vec<char>, p: &Vec<char>) -> (b: bool)
    ensures
        b == ends_with(s@, p@),
{
    if p.len() > s.len() {
        false
    } else {
        matches_at(s, p, s.len() - p.len())
    }
}

/// `s` without its leading and trailing whitespace, as std's `str::trim`
/// gives it.
pub open spec fn trim(s: Seq<char>) -> Seq<char> {
    let t = s.skip(lead_count(s, CharClass::Space) as int);
    t.take(t.len() - trail_count(t, CharClass::Space))
}

/// `s` without the copies of `c` it starts with, as std's
/// `str::trim_start_matches` with a `char` gives it.
pub open spec fn trim_start_char(s: Seq<char>, c: char) -> Seq<char> {
    s.skip(lead_count(s, CharClass::Exactly(c)) as int)
}

/// `s` without the copies of `c` it ends with, as std's `str::trim_end_matches`
/// with a `char` gives it.
pub open spec fn trim_end_char(s: Seq<char>, c: char) -> Seq<char> {
    s.take(s.len() - trail_count(s, CharClass::Exactly(c)))
}

pub proof fn lemma_trail_count_bound(s: Seq<char>, cls: CharClass)
    ensures
        trail_count(s, cls) <= s.len(),
    decreases s.len(),
{
    if s.len() > 0 && class_has(cls, s.last()) {
        lemma_trail_count_bound(s.drop_last(), cls);
    }
}

/// `s` without leading and trailing whitespace.
pub fn trim_seq(s: &Vec<char>) -> (r: Vec<char>)
    ensures
        r@ == trim(s@),
{
    let a = leading_count(s, CharClass::Space);
    proof {
        lemma_lead_count_bound(s@, CharClass::Space);
    }
    let t = copy_range(s, a, s.len());
    assert(t@ =~= s@.skip(a as int));
    let b = trailing_count(&t, CharClass::Space);
    proof {
        lemma_trail_count_bound(t@, CharClass::Space);
    }
    let r = copy_range(&t, 0, t.len() - b);
    assert(r@ =~= t@.take(t@.len() - b));
    r
}

/// `s` without the copies of `c` it starts with.
pub fn trim_start_matches_char(s: &Vec<char>, c: char) -> (r: Vec<char>)
    ensures
        r@ == trim_start_char(s@, c),
{
    let a = leading_count(s, CharClass::Exactly(c));
    proof {
        lemma_lead_count_bound(s@, CharClass::Exactly(c));
    }
    let r = copy_range(s, a, s.len());
    assert(r@ =~= s@.skip(a as int));
    r
}

/// `s` without the copies of `c` it ends with.
pub fn trim_end_matches_char(s: &Vec<char>, c: char) -> (r: Vec<char>)
    ensures
        r@ == trim_end_char(s@, c),
{
    let b = trailing_count(s, CharClass::Exactly(c));
    proof {
        lemma_trail_count_bound(s@, CharClass::Exactly(c));
    }
    let r = copy_range(s, 0, s.len() - b);
    assert(r@ =~= s@.take(s@.len() - b));
    r
}

/// The pieces of `s` between the copies of `c`, as std's `str::split` with a
/// `char` gives them.
pub open spec fn split_char(s: Seq<char>, c: char) -> Seq<Seq<char>>
    decreases s.len(),
{
    let i = idx_of(s, c);
    if i >= s.len() {
        seq![s]
    } else {
        seq![s.take(i as int)] + split_char(s.skip(i + 1 as int), c)
    }
}

/// The pieces of `s` between the copies of `c`.
pub fn split_on_char(s: &Vec<char>, c: char) -> (r: Vec<Vec<char>>)
    ensures
        seq_views(r@) == split_char(s@, c),
{
    let n = s.len();
    let mut out: Vec<Vec<char>> = Vec::new();
    let mut i: usize = 0;
    assert(s@.skip(0) =~= s@);
    assert(seq_views(out@) =~= Seq::<Seq<char>>::empty());
    loop
        invariant
            i <= n,
            n == s@.len(),
            seq_views(out@) + split_char(s@.skip(i as int), c) == split_char(s@, c),
        decreases n - i,
    {
        let j = find_char_from(s, i, c);
        let ghost t = s@.skip(i as int);
        let piece = copy_range(s, i, j);
        assert(piece@ =~= t.take((j - i) as int));
        let ghost old_out = out@;
        out.push(piece);
        proof {
            lemma_seq_views_push(old_out, out@.last());
            assert(old_out.push(out@.last()) == out@);
        }
        if j == n {
            assert(t.take((j - i) as int) =~= t);
            assert(seq_views(out@) =~= seq_views(old_out) + split_char(t, c));
            return out;
        }
        assert(t.skip((j - i) + 1) =~= s@.skip(j + 1));
        i = j + 1;
        assert(seq_views(out@) + split_char(s@.skip(i as int), c) =~= seq_views(old_out) + split_char(t, c));
    }
}

/// What comes before the first `p` in `s`, or all of `s`: the first item of
/// std's `str::split` with a string pattern.
pub open spec fn before_first(s: Seq<char>, p: Seq<char>) -> Seq<char> {
    match find(s, p) {
        Some(i) => s.take(i as int),
        None => s,
    }
}

pub proof fn lemma_find_bound(s: Seq<char>, p: Seq<char>, i: nat)
    ensures
        find_from(s, p, i) matches Some(k) ==> i <= k && occurs_at(s, p, k as int),
    decreases s.len() + 1 - i,
{
    if i + p.len() <= s.len() && !occurs_at(s, p, i as int) {
        lemma_find_bound(s, p, i + 1);
    }
}

/// What comes before the first `p` in `s`, or all of `s`.
pub fn before_first_seq(s: &Vec<char>, p: &Vec<char>) -> (r: Vec<char>)
    ensures
        r@ == before_first(s@, p@),
{
    proof {
        lemma_find_bound(s@, p@, 0);
    }
    match find_seq(s, p) {
        Some(i) => copy_range(s, 0, i),
        None => s.clone(),
    }
}

/// How many bytes the UTF-8 encoding of `c` takes.
pub open spec fn utf8_width(c: char) -> nat {
    let u = c as u32;
    if u < 0x80 {
        1
    } else if u < 0x800 {
        2
    } else if u < 0x10000 {
        3
    } else {
        4
    }
}

/// How many bytes the UTF-8 encoding of `s` takes: the length that std's
/// `str::len` reports and that byte offsets into a `str` count.
pub open spec fn byte_len(s: Seq<char>) -> nat
    decreases s.len(),
{
    if s.len() == 0 {
        0
    } else {
        byte_len(s.drop_last()) + utf8_width(s.last())
    }
}

/// Whether byte offset `b` of `s` falls between two characters (or at an
/// end), so that std lets a `str` be sliced there.
pub open spec fn is_boundary(s: Seq<char>, b: int) -> bool {
    exists|k: int| 0 <= k <= s.len() && byte_len(s.take(k)) == b
}

/// The character index at byte offset `b` of `s`, where `b` is a boundary.
pub open spec fn char_at_byte(s: Seq<char>, b: int) -> int {
    choose|k: int| 0 <= k <= s.len() && byte_len(s.take(k)) == b
}

pub proof fn lemma_byte_len_step(s: Seq<char>, i: int)
    requires
        0 <= i < s.len(),
    ensures
        byte_len(s.take(i + 1)) == byte_len(s.take(i)) + utf8_width(s[i]),
{
    assert(s.take(i + 1).drop_last() =~= s.take(i));
}

pub proof fn lemma_byte_len_mono(s: Seq<char>, j1: int, j2: int)
    requires
        0 <= j1 <= j2 <= s.len(),
    ensures
        byte_len(s.take(j1)) + (j2 - j1) <= byte_len(s.take(j2)),
    decreases j2 - j1,
{
    if j1 < j2 {
        lemma_byte_len_mono(s, j1, j2 - 1);
        lemma_byte_len_step(s, j2 - 1);
    }
}

/// Where the character index at byte offset `b` lies: the unique `k`.
pub proof fn lemma_char_at_byte(s: Seq<char>, b: int, k: int)
    requires
        0 <= k <= s.len(),
        byte_len(s.take(k)) == b,
    ensures
        is_boundary(s, b),
        char_at_byte(s, b) == k,
{
    let j = char_at_byte(s, b);
    assert(0 <= j <= s.len() && byte_len(s.take(j)) == b);
    if j < k {
        lemma_byte_len_mono(s, j, k);
    } else if k < j {
        lemma_byte_len_mono(s, k, j);
    }
}

pub fn utf8_width_of(c: char) -> (w: u8)
    ensures
        w == utf8_width(c),
{
    let u = c as u32;
    if u < 0x80 {
        1
    } else if u < 0x800 {
        2
    } else if u < 0x10000 {
        3
    } else {
        4
    }
}

/// Where a byte offset falls in a line.
pub enum BytePos {
    /// Between characters, before the character with this index.
    At(usize),
    /// Inside the encoding of a character.
    Inside,
    /// Past the end.
    Beyond,
}

/// Where in `line` the byte offset of character `c` of `head` falls.
pub fn locate_byte(line: &Vec<char>, head: &Vec<char>, c: usize) -> (r: BytePos)
    requires
        c <= head@.len(),
    ensures
        match r {
            BytePos::At(k) => k <= line@.len() && byte_len(line@.take(k as int)) == byte_len(
                head@.take(c as int),
            ),
            BytePos::Inside => byte_len(head@.take(c as int)) < byte_len(line@) && !is_boundary(
                line@,
                byte_len(head@.take(c as int)) as int,
            ),
            BytePos::Beyond => byte_len(head@.take(c as int)) > byte_len(line@),
        },
{
    let mut i: usize = 0;
    let mut k: usize = 0;
    let mut bal: i64 = 0;
    assert(line@.take(0) =~= Seq::<char>::empty());
    assert(head@.take(0) =~= Seq::<char>::empty());
    loop
        invariant
            i <= c <= head@.len(),
            k <= line@.len(),
            bal == byte_len(head@.take(i as int)) - byte_len(line@.take(k as int)),
            -4 <= bal <= 4,
            forall|j: int|
                0 <= j < k ==> #[trigger] byte_len(line@.take(j)) < byte_len(head@.take(i as int)),
        decreases (c - i) + (line@.len() - k),
    {
        if bal <= 0 && i < c {
            proof {
                lemma_byte_len_step(head@, i as int);
            }
            let w = utf8_width_of(head[i]);
            bal = bal + w as i64;
            i = i + 1;
            proof {
                assert forall|j: int| 0 <= j < k implies #[trigger] byte_len(line@.take(j)) < byte_len(
                    head@.take(i as int),
                ) by {
                    lemma_byte_len_mono(head@, i - 1, i as int);
                }
            }
        } else if bal > 0 {
            if k == line.len() {
                proof {
                    lemma_byte_len_mono(head@, i as int, c as int);
                    assert(line@.take(k as int) =~= line@);
                }
                return BytePos::Beyond;
            }
            proof {
                lemma_byte_len_step(line@, k as int);
            }
            let w = utf8_width_of(line[k]);
            bal = bal - w as i64;
            k = k + 1;
        } else {
            if bal == 0 {
                return BytePos::At(k);
            }
            proof {
                assert(k > 0);
                lemma_byte_len_mono(line@, k as int, line@.len() as int);
                assert(line@.take(line@.len() as int) =~= line@);
                if is_boundary(line@, byte_len(head@.take(c as int)) as int) {
                    let j = choose|j: int|
                        0 <= j <= line@.len() && byte_len(line@.take(j)) == byte_len(head@.take(c as int));
                    if j >= k {
                        lemma_byte_len_mono(line@, k as int, j);
                    } else {
                        assert(byte_len(line@.take(j)) < byte_len(head@.take(i as int)));
                    }
                }
            }
            return BytePos::Inside;
        }
    }
}

/// Whether `a` and `b` hold the same characters.
pub fn eq_chars(a: &Vec<char>, b: &Vec<char>) -> (r: bool)
    ensures
        r == (a@ == b@),
{
    if a.len() != b.len() {
        return false;
    }
    let r = matches_at(a, b, 0);
    if r {
        assert(a@.subrange(0, b@.len() as int) =~= a@);
    } else {
        assert(a@ != b@) by {
            if a@ == b@ {
                assert(a@.subrange(0, b@.len() as int) =~= a@);
            }
        }
    }
    r
}

/// A copy of `v`.
pub fn dup(v: &Vec<char>) -> (r: Vec<char>)
    ensures
        r@ == v@,
{
    let r = copy_range(v, 0, v.len());
    assert(r@ =~= v@);
    r
}

/// The code of `c` with ASCII capitals lowered.
pub open spec fn ascii_lower_code(c: char) -> u32 {
    let u = c as u32;
    if 65 <= u && u <= 90 {
        (u + 32) as u32
    } else {
        u
    }
}

/// Whether `a` and `b` are equal but for the case of ASCII letters, as std's
/// `str::eq_ignore_ascii_case` compares them.
pub open spec fn eq_ignore_ascii_case(a: Seq<char>, b: Seq<char>) -> bool {
    a.len() == b.len() && forall|i: int| 0 <= i < a.len() ==> #[trigger] ascii_lower_code(a[i]) == ascii_lower_code(b[i])
}

pub fn lower_code(c: char) -> (r: u32)
    ensures
        r == ascii_lower_code(c),
{
    let u = c as u32;
    if 65 <= u && u <= 90 {
        u + 32
    } else {
        u
    }
}

/// Whether `a` and `b` are equal but for the case of ASCII letters.
pub fn same_ignoring_ascii_case(a: &Vec<char>, b: &Vec<char>) -> (r: bool)
    ensures
        r == eq_ignore_ascii_case(a@, b@),
{
    if a.len() != b.len() {
        return false;
    }
    let mut i: usize = 0;
    while i < a.len()
        invariant
            i <= a@.len(),
            a@.len() == b@.len(),
            forall|k: int| 0 <= k < i ==> #[trigger] ascii_lower_code(a@[k]) == ascii_lower_code(b@[k]),
        decreases a@.len() - i,
    {
        if lower_code(a[i]) != lower_code(b[i]) {
            return false;
        }
        i = i + 1;
    }
    true
}

pub proof fn lemma_idx_of_prefix(s: Seq<char>, c: char)
    ensures
        idx_of(s, c) <= s.len(),
        forall|k: int| 0 <= k < idx_of(s, c) ==> #[trigger] s[k] != c,
        idx_of(s, c) < s.len() ==> s[idx_of(s, c) as int] == c,
    decreases s.len(),
{
    if s.len() > 0 && s[0] != c {
        lemma_idx_of_prefix(s.drop_first(), c);
        assert forall|k: int| 0 <= k < idx_of(s, c) implies #[trigger] s[k] != c by {
            if k > 0 {
                assert(s[k] == s.drop_first()[k - 1]);
            }
        }
    }
}

/// No line holds a line feed.
pub proof fn lemma_lines_have_no_newline(s: Seq<char>)
    ensures
        forall|i: int, j: int|
            0 <= i < spec_lines(s).len() && 0 <= j < spec_lines(s)[i].len() ==> #[trigger] spec_lines(s)[i][j]
                != '\n',
    decreases s.len(),
{
    if s.len() > 0 {
        let i0 = idx_of(s, '\n');
        lemma_idx_of_prefix(s, '\n');
        if i0 < s.len() {
            lemma_lines_have_no_newline(s.skip(i0 + 1 as int));
            let first = strip_cr(s.take(i0 as int));
            let rest = spec_lines(s.skip(i0 + 1 as int));
            assert forall|i: int, j: int|
                0 <= i < spec_lines(s).len() && 0 <= j < spec_lines(s)[i].len() implies #[trigger] spec_lines(s)[i][j]
                != '\n' by {
                if i == 0 {
                    assert(spec_lines(s)[0] == first);
                    assert(first[j] == s[j]);
                } else {
                    assert(spec_lines(s)[i] == rest[i - 1]);
                }
            }
        }
    }
}

/// Every word is non-empty and holds no whitespace.
pub proof fn lemma_tokens_are_words(s: Seq<char>)
    ensures
        forall|i: int| 0 <= i < ws_tokens(s).len() ==> (#[trigger] ws_tokens(s)[i]).len() > 0,
        forall|i: int, j: int|
            0 <= i < ws_tokens(s).len() && 0 <= j < ws_tokens(s)[i].len() ==> !is_ws(#[trigger] ws_tokens(s)[i][j]),
    decreases s.len(),
{
    if s.len() > 0 {
        if is_ws(s[0]) {
            lemma_tokens_are_words(s.drop_first());
            assert(ws_tokens(s) == ws_tokens(s.drop_first()));
        } else {
            let n = lead_count(s, CharClass::NonSpace);
            assert(ws_tokens(s) == seq![s.take(n as int)] + ws_tokens(s.skip(n as int)));
            lemma_lead_count_bound(s, CharClass::NonSpace);
            lemma_tokens_are_words(s.skip(n as int));
            let rest = ws_tokens(s.skip(n as int));
            assert(n >= 1) by {
                assert(class_has(CharClass::NonSpace, s[0]));
            }
            assert forall|i: int| 0 <= i < ws_tokens(s).len() implies (#[trigger] ws_tokens(s)[i]).len() > 0 by {
                if i > 0 {
                    assert(ws_tokens(s)[i] == rest[i - 1]);
                }
            }
            assert forall|i: int, j: int|
                0 <= i < ws_tokens(s).len() && 0 <= j < ws_tokens(s)[i].len() implies !is_ws(
                #[trigger] ws_tokens(s)[i][j],
            ) by {
                if i == 0 {
                    assert(ws_tokens(s)[0] == s.take(n as int));
                    assert(class_has(CharClass::NonSpace, s[j]));
                } else {
                    assert(ws_tokens(s)[i] == rest[i - 1]);
                }
            }
        }
    }
}

} // verus!
