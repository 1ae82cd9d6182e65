//! Character-level text operations, each specified over `Seq<char>`.
//!
//! The executable helpers work on `&[char]` / `Vec<char>`; `chars_of` and
//! `string_of` move between those and `&str` / `String`.

use vstd::prelude::*;

verus! {

/// `String::push` appends one character.
pub assume_specification[ String::push ](s: &mut String, ch: char)
    ensures
        final(s)@ == old(s)@.push(ch),
;

// ---------------------------------------------------------------------------
// Specifications

/// The Unicode `White_Space` property, which `char::is_whitespace` tests.
pub open spec fn is_whitespace(c: char) -> bool {
    let n = c as u32;
    ||| 0x09 <= n <= 0x0D
    ||| n == 0x20
    ||| n == 0x85
    ||| n == 0xA0
    ||| n == 0x1680
    ||| 0x2000 <= n <= 0x200A
    ||| n == 0x2028
    ||| n == 0x2029
    ||| n == 0x202F
    ||| n == 0x205F
    ||| n == 0x3000
}

/// `s` without its leading white space.
pub open spec fn trim_start(s: Seq<char>) -> Seq<char>
    decreases s.len(),
{
    if s.len() > 0 && is_whitespace(s[0]) {
        trim_start(s.drop_first())
    } else {
        s
    }
}

/// `s` without its trailing white space.
pub open spec fn trim_end(s: Seq<char>) -> Seq<char>
    decreases s.len(),
{
    if s.len() > 0 && is_whitespace(s.last()) {
        trim_end(s.drop_last())
    } else {
        s
    }
}

/// `s` without leading and trailing white space (`str::trim`).
pub open spec fn trim(s: Seq<char>) -> Seq<char> {
    trim_end(trim_start(s))
}

/// ASCII upper-case letters map to lower case; every other character stays.
pub open spec fn ascii_lower(c: char) -> char {
    if 'A' <= c && c <= 'Z' {
        ((c as u32) + 32) as char
    } else {
        c
    }
}

/// `str::to_ascii_lowercase`.
pub open spec fn ascii_lowercase(s: Seq<char>) -> Seq<char> {
    s.map_values(|c: char| ascii_lower(c))
}

/// `str::eq_ignore_ascii_case`.
pub open spec fn eq_ignore_ascii_case(a: Seq<char>, b: Seq<char>) -> bool {
    ascii_lowercase(a) == ascii_lowercase(b)
}

/// `char::is_ascii_alphanumeric`.
pub open spec fn is_ascii_alphanumeric(c: char) -> bool {
    ('0' <= c && c <= '9') || ('a' <= c && c <= 'z') || ('A' <= c && c <= 'Z')
}

/// The first index `k >= i` with `s[k] == c`.
pub open spec fn first_index(s: Seq<char>, c: char, i: int) -> Option<int>
    decreases s.len() - i,
{
    if i >= s.len() {
        None
    } else if s[i] == c {
        Some(i)
    } else {
        first_index(s, c, i + 1)
    }
}

/// `p` occurs in `s` starting at index `i`.
pub open spec fn occurs_at(s: Seq<char>, p: Seq<char>, i: int) -> bool {
    0 <= i && i + p.len() <= s.len() && s.subrange(i, i + p.len()) == p
}

/// The first index `k >= i` where `p` occurs in `s` (`str::find` from `i`).
pub open spec fn find_from(s: Seq<char>, p: Seq<char>, i: int) -> Option<int>
    decreases s.len() - i,
{
    if i < 0 || i + p.len() > s.len() {
        None
    } else if p.len() == 0 || occurs_at(s, p, i) {
        Some(i)
    } else {
        find_from(s, p, i + 1)
    }
}

/// `s` contains `p` (`str::contains`).
pub open spec fn contains(s: Seq<char>, p: Seq<char>) -> bool {
    find_from(s, p, 0) is Some
}

/// A line taken up to its `\n`, without a `\r` just before that `\n`.
pub open spec fn strip_cr(line: Seq<char>) -> Seq<char> {
    if line.len() > 0 && line.last() == '\r' {
        line.drop_last()
    } else {
        line
    }
}

/// The lines of `s[i..]`, as `str::lines` yields them: split at `\n`, a `\r`
/// right before a `\n` dropped, and no empty last line after a final `\n`.
pub open spec fn lines_from(s: Seq<char>, i: int) -> Seq<Seq<char>>
    decreases s.len() - i,
{
    if i < 0 || i >= s.len() {
        Seq::empty()
    } else {
        match first_index(s, '\n', i) {
            None => seq![s.subrange(i, s.len() as int)],
            Some(k) => {
                proof {
                    lemma_first_index_bounds(s, '\n', i);
                }
                seq![strip_cr(s.subrange(i, k))] + lines_from(s, k + 1)
            },
        }
    }
}

/// `str::lines`.
pub open spec fn lines(s: Seq<char>) -> Seq<Seq<char>> {
    lines_from(s, 0)
}

/// The pieces of `s[i..]` between occurrences of `c` (`str::split` on a char).
pub open spec fn split_from(s: Seq<char>, c: char, i: int) -> Seq<Seq<char>>
    decreases s.len() + 1 - i,
{
    if i < 0 || i > s.len() {
        Seq::empty()
    } else {
        match first_index(s, c, i) {
            None => seq![s.subrange(i, s.len() as int)],
            Some(k) => {
                proof {
                    lemma_first_index_bounds(s, c, i);
                }
                seq![s.subrange(i, k)] + split_from(s, c, k + 1)
            },
        }
    }
}

/// `str::split(c)`.
pub open spec fn split(s: Seq<char>, c: char) -> Seq<Seq<char>> {
    split_from(s, c, 0)
}

/// `str::split_once(p)`: the text before and after the first occurrence of `p`.
pub open spec fn split_once(s: Seq<char>, p: Seq<char>) -> Option<(Seq<char>, Seq<char>)> {
    match find_from(s, p, 0) {
        Some(k) => Some((s.take(k), s.skip(k + p.len()))),
        None => None,
    }
}

/// `str::strip_prefix(p)`.
pub open spec fn strip_prefix(s: Seq<char>, p: Seq<char>) -> Option<Seq<char>> {
    if p.len() <= s.len() && s.take(p.len() as int) == p {
        Some(s.skip(p.len() as int))
    } else {
        None
    }
}

/// Where `first_index` lands: the first `c` at or after `i`.
pub proof fn lemma_first_index_bounds(s: Seq<char>, c: char, i: int)
    ensures
        first_index(s, c, i) matches Some(k) ==> {
            &&& i <= k < s.len()
            &&& s[k] == c
            &&& forall|j: int| i <= j < k ==> s[j] != c
        },
        first_index(s, c, i) is None ==> forall|j: int| i <= j < s.len() ==> s[j] != c,
    decreases s.len() - i,
{
    if i < s.len() && s[i] != c {
        lemma_first_index_bounds(s, c, i + 1);
    }
}

/// Where `find_from` lands: the first occurrence of `p` at or after `i >= 0`.
pub proof fn lemma_find_from_bounds(s: Seq<char>, p: Seq<char>, i: int)
    ensures
        find_from(s, p, i) matches Some(k) ==> {
            &&& 0 <= i <= k
            &&& k + p.len() <= s.len()
            &&& s.subrange(k, k + p.len()) == p
            &&& forall|j: int| i <= j < k ==> !occurs_at(s, p, j)
        },
        i >= 0 && find_from(s, p, i) is None ==> forall|j: int| i <= j ==> !occurs_at(s, p, j),
    decreases s.len() - i,
{
    if i < 0 || i + p.len() > s.len() {
    } else if p.len() == 0 || occurs_at(s, p, i) {
        if p.len() == 0 {
            assert(s.subrange(i, i + p.len()) =~= p);
        }
    } else {
        lemma_find_from_bounds(s, p, i + 1);
    }
}

/// The views of a list of strings.
pub open spec fn string_views(v: Seq<String>) -> Seq<Seq<char>> {
    v.map_values(|s: String| s@)
}

/// The views of a list of string pairs.
pub open spec fn pair_views(v: Seq<(String, String)>) -> Seq<(Seq<char>, Seq<char>)> {
    v.map_values(|p: (String, String)| (p.0@, p.1@))
}

/// The view of each vector in `v`.
pub open spec fn views(v: Seq<Vec<char>>) -> Seq<Seq<char>> {
    v.map_values(|x: Vec<char>| x@)
}

// ---------------------------------------------------------------------------
// Conversions

/// The characters of `s`, in order.
pub fn chars_of(s: &str) -> (res: Vec<char>)
    ensures
        res@ == s@,
{
    let mut out: Vec<char> = Vec::new();
    for c in it: s.chars()
        invariant
            out@ == it.seq().take(it.index() as int),
            it.seq() == s@,
    {
        out.push(c);
    }
    out
}

/// A `String` holding the characters of `cs`.
pub fn string_of(cs: &[char]) -> (res: String)
    ensures
        res@ == cs@,
{
    let mut out = String::new();
    let mut i: usize = 0;
    while i < cs.len()
        invariant
            i <= cs@.len(),
            out@ == cs@.take(i as int),
        decreases cs@.len() - i,
    {
        out.push(cs[i]);
        i = i + 1;
        assert(out@ =~= cs@.take(i as int));
    }
    assert(cs@.take(cs@.len() as int) =~= cs@);
    out
}

/// Appends the characters of `cs` to `out`.
pub fn push_chars(out: &mut String, cs: &[char])
    ensures
        final(out)@ == old(out)@ + cs@,
{
    let mut i: usize = 0;
    while i < cs.len()
        invariant
            i <= cs@.len(),
            out@ == old(out)@ + cs@.take(i as int),
        decreases cs@.len() - i,
    {
        out.push(cs[i]);
        i = i + 1;
        assert(out@ =~= old(out)@ + cs@.take(i as int));
    }
    assert(cs@.take(cs@.len() as int) =~= cs@);
}

/// Appends `s` to `out`.
pub fn push_str(out: &mut String, s: &str)
    ensures
        final(out)@ == old(out)@ + s@,
{
    let cs = chars_of(s);
    push_chars(out, cs.as_slice());
}

/// `cs[from..to]` as a vector.
pub fn slice(cs: &[char], from: usize, to: usize) -> (res: Vec<char>)
    requires
        from <= to <= cs@.len(),
    ensures
        res@ == cs@.subrange(from as int, to as int),
{
    let mut out: Vec<char> = Vec::new();
    let mut i = from;
    while i < to
        invariant
            from <= i <= to <= cs@.len(),
            out@ == cs@.subrange(from as int, i as int),
        decreases to - i,
    {
        out.push(cs[i]);
        i = i + 1;
        assert(out@ =~= cs@.subrange(from as int, i as int));
    }
    out
}

// ---------------------------------------------------------------------------
// Character classes

/// `char::is_whitespace`.
pub fn is_ws(c: char) -> (res: bool)
    ensures
        res == is_whitespace(c),
{
    let n = c as u32;
    (0x09 <= n && n <= 0x0D) || n == 0x20 || n == 0x85 || n == 0xA0 || n == 0x1680 || (0x2000
        <= n && n <= 0x200A) || n == 0x2028 || n == 0x2029 || n == 0x202F || n == 0x205F || n
        == 0x3000
}

/// `char::to_ascii_lowercase`.
pub fn lower_char(c: char) -> (res: char)
    ensures
        res == ascii_lower(c),
{
    if 'A' <= c && c <= 'Z' {
        let n = c as u32 + 32;
        char_from_ascii(n as u8)
    } else {
        c
    }
}

/// The character with code `b`, for an ASCII byte.
fn char_from_ascii(b: u8) -> (res: char)
    requires
        b < 128,
    ensures
        res == b as char,
        res as u32 == b as u32,
{
    b as char
}

/// `char::is_ascii_alphanumeric`.
pub fn is_alnum(c: char) -> (res: bool)
    ensures
        res == is_ascii_alphanumeric(c),
{
    ('0' <= c && c <= '9') || ('a' <= c && c <= 'z') || ('A' <= c && c <= 'Z')
}


// ---------------------------------------------------------------------------
// Searching and comparing

/// `a == b`, character by character.
pub fn same(a: &[char], b: &[char]) -> (res: bool)
    ensures
        res == (a@ == b@),
{
    if a.len() != b.len() {
        return false;
    }
    let mut i: usize = 0;
    while i < a.len()
        invariant
            a@.len() == b@.len(),
            i <= a@.len(),
            forall|j: int| 0 <= j < i ==> a@[j] == b@[j],
        decreases a@.len() - i,
    {
        if a[i] != b[i] {
            return false;
        }
        i = i + 1;
    }
    assert(a@ =~= b@);
    true
}

/// `s` equals the text `t`.
pub fn same_str(s: &[char], t: &str) -> (res: bool)
    ensures
        res == (s@ == t@),
{
    let tc = chars_of(t);
    same(s, tc.as_slice())
}

/// The first index `k >= i` with `s[k] == c`.
pub fn index_of(s: &[char], c: char, i: usize) -> (res: Option<usize>)
    ensures
        match res {
            Some(k) => first_index(s@, c, i as int) == Some(k as int),
            None => first_index(s@, c, i as int) is None,
        },
{
    let mut k = i;
    while k < s.len()
        invariant
            i <= k,
            first_index(s@, c, i as int) == first_index(s@, c, k as int),
        decreases s@.len() - k,
    {
        if s[k] == c {
            return Some(k);
        }
        k = k + 1;
    }
    None
}

/// `p` occurs in `s` at index `i`.
pub fn occurs(s: &[char], p: &[char], i: usize) -> (res: bool)
    ensures
        res == occurs_at(s@, p@, i as int),
{
    if i > s.len() || p.len() > s.len() - i {
        return false;
    }
    let mut j: usize = 0;
    while j < p.len()
        invariant
            i + p@.len() <= s@.len(),
            s@.len() <= usize::MAX,
            j <= p@.len(),
            forall|m: int| 0 <= m < j ==> s@[i + m] == p@[m],
        decreases p@.len() - j,
    {
        if s[i + j] != p[j] {
            assert(s@.subrange(i as int, i + p@.len())[j as int] != p@[j as int]);
            return false;
        }
        j = j + 1;
    }
    assert(s@.subrange(i as int, i + p@.len()) =~= p@);
    true
}

/// The first index `k >= i` where `p` occurs in `s`.
pub fn find(s: &[char], p: &[char], i: usize) -> (res: Option<usize>)
    ensures
        match res {
            Some(k) => find_from(s@, p@, i as int) == Some(k as int),
            None => find_from(s@, p@, i as int) is None,
        },
{
    if p.len() == 0 {
        if i <= s.len() {
            return Some(i);
        }
        return None;
    }
    if p.len() > s.len() {
        return None;
    }
    let last = s.len() - p.len();
    let mut k = i;
    while k <= last
        invariant
            i <= k,
            p@.len() > 0,
            s@.len() <= usize::MAX,
            last + p@.len() == s@.len(),
            find_from(s@, p@, i as int) == find_from(s@, p@, k as int),
        decreases last + 1 - k,
    {
        if occurs(s, p, k) {
            return Some(k);
        }
        k = k + 1;
    }
    None
}

/// `s` contains `p`.
pub fn contains_chars(s: &[char], p: &[char]) -> (res: bool)
    ensures
        res == contains(s@, p@),
{
    find(s, p, 0).is_some()
}

/// `s` with leading and trailing white space removed.
pub fn trimmed(s: &[char]) -> (res: Vec<char>)
    ensures
        res@ == trim(s@),
{
    let mut a: usize = 0;
    assert(s@.subrange(0, s@.len() as int) =~= s@);
    while a < s.len() && is_ws(s[a])
        invariant
            a <= s@.len(),
            trim_start(s@) == trim_start(s@.subrange(a as int, s@.len() as int)),
        decreases s@.len() - a,
    {
        assert(s@.subrange(a as int, s@.len() as int).drop_first() =~= s@.subrange(a + 1, s@.len() as int));
        a = a + 1;
    }
    assert(trim_start(s@) == s@.subrange(a as int, s@.len() as int));
    let mut b: usize = s.len();
    while b > a && is_ws(s[b - 1])
        invariant
            a <= b <= s@.len(),
            trim(s@) == trim_end(s@.subrange(a as int, b as int)),
        decreases b - a,
    {
        assert(s@.subrange(a as int, b as int).drop_last() =~= s@.subrange(a as int, b - 1));
        b = b - 1;
    }
    slice(s, a, b)
}

/// `s` mapped through `ascii_lower`.
pub fn lowercase(s: &[char]) -> (res: Vec<char>)
    ensures
        res@ == ascii_lowercase(s@),
{
    let mut out: Vec<char> = Vec::new();
    let mut i: usize = 0;
    while i < s.len()
        invariant
            i <= s@.len(),
            out@ == ascii_lowercase(s@.take(i as int)),
        decreases s@.len() - i,
    {
        out.push(lower_char(s[i]));
        i = i + 1;
        assert(out@ =~= ascii_lowercase(s@.take(i as int)));
    }
    assert(s@.take(s@.len() as int) =~= s@);
    out
}

/// `a` and `b` are equal up to ASCII case.
pub fn same_ignore_ascii_case(a: &[char], b: &[char]) -> (res: bool)
    ensures
        res == eq_ignore_ascii_case(a@, b@),
{
    let la = lowercase(a);
    let lb = lowercase(b);
    same(la.as_slice(), lb.as_slice())
}

/// The lines of `s` (`str::lines`).
pub fn lines_of(s: &[char]) -> (res: Vec<Vec<char>>)
    ensures
        views(res@) == lines(s@),
{
    let mut out: Vec<Vec<char>> = Vec::new();
    let mut i: usize = 0;
    let n = s.len();
    assert(s@.len() == n);
    while i < s.len()
        invariant
            i <= s@.len(),
            s@.len() <= usize::MAX,
            views(out@) + lines_from(s@, i as int) == lines(s@),
        decreases s@.len() - i,
    {
        match index_of(s, '\n', i) {
            None => {
                let line = slice(s, i, s.len());
                out.push(line);
                assert(views(out@) =~= lines(s@));
                return out;
            },
            Some(k) => {
                proof {
                    lemma_first_index_bounds(s@, '\n', i as int);
                }
                let mut end = k;
                if end > i && s[end - 1] == '\r' {
                    end = end - 1;
                }
                let line = slice(s, i, end);
                assert(line@ == strip_cr(s@.subrange(i as int, k as int)));
                let ghost prev = views(out@);
                out.push(line);
                assert(views(out@) =~= prev + seq![line@]);
                i = k + 1;
            },
        }
    }
    assert(lines_from(s@, i as int) =~= Seq::<Seq<char>>::empty());
    assert(views(out@) =~= lines(s@));
    out
}

/// The pieces of `s` between occurrences of `c` (`str::split`).
pub fn split_on(s: &[char], c: char) -> (res: Vec<Vec<char>>)
    ensures
        views(res@) == split(s@, c),
{
    let mut out: Vec<Vec<char>> = Vec::new();
    let mut i: usize = 0;
    let n = s.len();
    assert(s@.len() == n);
    loop
        invariant
            i <= s@.len(),
            s@.len() <= usize::MAX,
            views(out@) + split_from(s@, c, i as int) == split(s@, c),
        decreases s@.len() - i,
    {
        match index_of(s, c, i) {
            None => {
                let piece = slice(s, i, s.len());
                let ghost prev = views(out@);
                out.push(piece);
                assert(views(out@) =~= prev + seq![piece@]);
                return out;
            },
            Some(k) => {
                proof {
                    lemma_first_index_bounds(s@, c, i as int);
                }
                let piece = slice(s, i, k);
                let ghost prev = views(out@);
                out.push(piece);
                assert(views(out@) =~= prev + seq![piece@]);
                i = k + 1;
            },
        }
    }
}

/// `str::split_once(p)`.
pub fn split_once_chars(s: &[char], p: &[char]) -> (res: Option<(Vec<char>, Vec<char>)>)
    ensures
        match res {
            Some((a, b)) => split_once(s@, p@) == Some((a@, b@)),
            None => split_once(s@, p@) is None,
        },
{
    let n = s.len();
    assert(s@.len() == n);
    match find(s, p, 0) {
        None => None,
        Some(k) => {
            proof {
                lemma_find_from_bounds(s@, p@, 0);
            }
            let a = slice(s, 0, k);
            let b = slice(s, k + p.len(), s.len());
            assert(a@ =~= s@.take(k as int));
            assert(b@ =~= s@.skip(k + p@.len()));
            Some((a, b))
        },
    }
}

/// `str::strip_prefix(p)`.
pub fn strip_prefix_chars(s: &[char], p: &[char]) -> (res: Option<Vec<char>>)
    ensures
        match res {
            Some(rest) => strip_prefix(s@, p@) == Some(rest@),
            None => strip_prefix(s@, p@) is None,
        },
{
    if p.len() <= s.len() && occurs(s, p, 0) {
        let rest = slice(s, p.len(), s.len());
        assert(s@.take(p@.len() as int) =~= s@.subrange(0, p@.len() as int));
        assert(rest@ =~= s@.skip(p@.len() as int));
        Some(rest)
    } else {
        proof {
            if p@.len() <= s@.len() {
                assert(s@.take(p@.len() as int) =~= s@.subrange(0, p@.len() as int));
            }
        }
        None
    }
}


// ---------------------------------------------------------------------------
// Facts about trimming

proof fn lemma_trim_start_first(x: Seq<char>)
    ensures
        trim_start(x).len() == 0 || !is_whitespace(trim_start(x)[0]),
    decreases x.len(),
{
    if x.len() > 0 && is_whitespace(x[0]) {
        lemma_trim_start_first(x.drop_first());
    }
}

proof fn lemma_trim_end_prefix(y: Seq<char>)
    ensures
        trim_end(y).len() <= y.len(),
        trim_end(y) == y.take(trim_end(y).len() as int),
        trim_end(y).len() == 0 || !is_whitespace(trim_end(y).last()),
    decreases y.len(),
{
    if y.len() > 0 && is_whitespace(y.last()) {
        lemma_trim_end_prefix(y.drop_last());
        assert(y.drop_last().take(trim_end(y).len() as int) =~= y.take(trim_end(y).len() as int));
    } else {
        assert(y.take(y.len() as int) =~= y);
    }
}

/// Trimming twice trims no more than trimming once.
pub proof fn lemma_trim_idempotent(x: Seq<char>)
    ensures
        trim(trim(x)) == trim(x),
{
    let y = trim_start(x);
    let z = trim_end(y);
    lemma_trim_start_first(x);
    lemma_trim_end_prefix(y);
    if z.len() > 0 {
        assert(z[0] == y[0]);
        assert(trim_start(z) == z);
    } else {
        assert(trim_start(z) == z);
    }
}

proof fn lemma_trim_start_push_ws(x: Seq<char>, w: char)
    requires
        is_whitespace(w),
    ensures
        trim_start(x.push(w)) == (if trim_start(x).len() == 0 {
            Seq::<char>::empty()
        } else {
            trim_start(x).push(w)
        }),
    decreases x.len(),
{
    if x.len() == 0 {
        let one = x.push(w);
        assert(one[0] == w);
        assert(one.drop_first() =~= Seq::<char>::empty());
        assert(trim_start(Seq::<char>::empty()) =~= Seq::<char>::empty());
        assert(trim_start(one) == trim_start(one.drop_first()));
        assert(x =~= Seq::<char>::empty());
    } else if is_whitespace(x[0]) {
        assert(x.push(w)[0] == x[0]);
        assert(x.push(w).drop_first() =~= x.drop_first().push(w));
        lemma_trim_start_push_ws(x.drop_first(), w);
    } else {
        assert(x.push(w)[0] == x[0]);
    }
}

/// Trailing white space does not change what trimming leaves.
pub proof fn lemma_trim_push_ws(x: Seq<char>, w: char)
    requires
        is_whitespace(w),
    ensures
        trim(x.push(w)) == trim(x),
{
    lemma_trim_start_push_ws(x, w);
    if trim_start(x).len() > 0 {
        let t = trim_start(x).push(w);
        assert(t.drop_last() =~= trim_start(x));
    } else {
        assert(trim_start(x) =~= Seq::<char>::empty());
    }
}

} // verus!
