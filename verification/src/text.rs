//! Character-sequence utilities shared by the parsers: Unicode whitespace
//! trimming, line and field splitting, ASCII case folding and decimal
//! parsing, each stated over `Seq<char>`.
use vstd::prelude::*;

verus! {

/// The Unicode `White_Space` property, as used by `char::is_whitespace`.
pub open spec fn is_ws(c: char) -> bool {
    let n = c as int;
    ||| (9 <= n && n <= 13)
    ||| n == 32
    ||| n == 0x85
    ||| n == 0xA0
    ||| n == 0x1680
    ||| (0x2000 <= n && n <= 0x200A)
    ||| n == 0x2028
    ||| n == 0x2029
    ||| n == 0x202F
    ||| n == 0x205F
    ||| n == 0x3000
}

pub fn is_ws_exec(c: char) -> (r: bool)
    ensures
        r == is_ws(c),
{
    let n: u32 = c as u32;
    (9 <= n && n <= 13) || n == 32 || n == 0x85 || n == 0xA0 || n == 0x1680 || (0x2000 <= n
        && n <= 0x200A) || n == 0x2028 || n == 0x2029 || n == 0x202F || n == 0x205F || n == 0x3000
}

/// `s` with its leading whitespace removed.
pub open spec fn trim_start(s: Seq<char>) -> Seq<char>
    decreases s.len(),
{
    if s.len() > 0 && is_ws(s[0]) {
        trim_start(s.drop_first())
    } else {
        s
    }
}

/// `s` with its trailing whitespace removed.
pub open spec fn trim_end(s: Seq<char>) -> Seq<char>
    decreases s.len(),
{
    if s.len() > 0 && is_ws(s.last()) {
        trim_end(s.drop_last())
    } else {
        s
    }
}

/// `s` with whitespace removed at both ends, as `str::trim` does.
pub open spec fn trim(s: Seq<char>) -> Seq<char> {
    trim_end(trim_start(s))
}

pub proof fn lemma_trim_start_at(s: Seq<char>, i: int)
    requires
        0 <= i <= s.len(),
        forall|j: int| 0 <= j < i ==> is_ws(#[trigger] s[j]),
        i == s.len() || !is_ws(s[i]),
    ensures
        trim_start(s) == s.subrange(i, s.len() as int),
    decreases i,
{
    if i > 0 {
        let t = s.drop_first();
        assert forall|j: int| 0 <= j < i - 1 implies is_ws(#[trigger] t[j]) by {
            assert(t[j] == s[j + 1]);
        }
        lemma_trim_start_at(t, i - 1);
        assert(t.subrange(i - 1, t.len() as int) =~= s.subrange(i, s.len() as int));
    } else {
        assert(s.subrange(0, s.len() as int) =~= s);
    }
}

pub proof fn lemma_trim_end_at(s: Seq<char>, k: int)
    requires
        0 <= k <= s.len(),
        forall|j: int| k <= j < s.len() ==> is_ws(#[trigger] s[j]),
        k == 0 || !is_ws(s[k - 1]),
    ensures
        trim_end(s) == s.subrange(0, k),
    decreases s.len() - k,
{
    if k < s.len() {
        let t = s.drop_last();
        assert forall|j: int| k <= j < t.len() implies is_ws(#[trigger] t[j]) by {
            assert(t[j] == s[j]);
        }
        lemma_trim_end_at(t, k);
        assert(t.subrange(0, k) =~= s.subrange(0, k));
    } else {
        assert(s.subrange(0, k) =~= s);
    }
}

pub proof fn lemma_trim_len(s: Seq<char>)
    ensures
        trim_start(s).len() <= s.len(),
        trim_end(s).len() <= s.len(),
        trim(s).len() <= s.len(),
    decreases s.len(),
{
    if s.len() > 0 {
        lemma_trim_len(s.drop_first());
        lemma_trim_len(s.drop_last());
    }
    lemma_trim_len_end(trim_start(s));
}

proof fn lemma_trim_len_end(s: Seq<char>)
    ensures
        trim_end(s).len() <= s.len(),
    decreases s.len(),
{
    if s.len() > 0 {
        lemma_trim_len_end(s.drop_last());
    }
}

/// The characters of a string slice.
pub fn chars_of(s: &str) -> (v: Vec<char>)
    ensures
        v@ == s@,
{
    let mut v: Vec<char> = Vec::new();
    for c in it: s.chars()
        invariant
            v@ == it.seq().take(it.index() as int),
    {
        v.push(c);
    }
    v
}

/// The characters `v[lo..hi]` as a new vector.
pub fn slice_of(v: &Vec<char>, lo: usize, hi: usize) -> (r: Vec<char>)
    requires
        lo <= hi <= v.len(),
    ensures
        r@ == v@.subrange(lo as int, hi as int),
{
    let mut r: Vec<char> = Vec::new();
    let mut i: usize = lo;
    while i < hi
        invariant
            lo <= i <= hi <= v.len(),
            r@ == v@.subrange(lo as int, i as int),
        decreases hi - i,
    {
        r.push(v[i]);
        i = i + 1;
    }
    r
}

/// A copy of `v` with whitespace removed at both ends.
pub fn trim_chars(v: &Vec<char>) -> (r: Vec<char>)
    ensures
        r@ == trim(v@),
{
    let n: usize = v.len();
    let mut lo: usize = 0;
    while lo < n && is_ws_exec(v[lo])
        invariant
            lo <= n == v.len(),
            forall|j: int| 0 <= j < lo ==> is_ws(#[trigger] v@[j]),
        decreases n - lo,
    {
        lo = lo + 1;
    }
    proof {
        lemma_trim_start_at(v@, lo as int);
    }
    let mut hi: usize = n;
    while hi > lo && is_ws_exec(v[hi - 1])
        invariant
            lo <= hi <= n == v.len(),
            forall|j: int| hi <= j < n ==> is_ws(#[trigger] v@[j]),
        decreases hi,
    {
        hi = hi - 1;
    }
    let ghost t = v@.subrange(lo as int, n as int);
    proof {
        assert forall|j: int| hi - lo <= j < t.len() implies is_ws(#[trigger] t[j]) by {
            assert(t[j] == v@[lo + j]);
        }
        lemma_trim_end_at(t, hi - lo);
        assert(t.subrange(0, hi - lo) =~= v@.subrange(lo as int, hi as int));
    }
    slice_of(v, lo, hi)
}

/// A copy of `v` with leading whitespace removed.
pub fn trim_start_chars(v: &Vec<char>) -> (r: Vec<char>)
    ensures
        r@ == trim_start(v@),
{
    let n: usize = v.len();
    let mut lo: usize = 0;
    while lo < n && is_ws_exec(v[lo])
        invariant
            lo <= n == v.len(),
            forall|j: int| 0 <= j < lo ==> is_ws(#[trigger] v@[j]),
        decreases n - lo,
    {
        lo = lo + 1;
    }
    proof {
        lemma_trim_start_at(v@, lo as int);
    }
    slice_of(v, lo, n)
}

/// Whether two character sequences are equal.
pub fn chars_eq(a: &Vec<char>, b: &Vec<char>) -> (r: bool)
    ensures
        r == (a@ == b@),
{
    if a.len() != b.len() {
        return false;
    }
    let mut i: usize = 0;
    while i < a.len()
        invariant
            a.len() == b.len(),
            i <= a.len(),
            forall|j: int| 0 <= j < i ==> a@[j] == b@[j],
        decreases a.len() - i,
    {
        if a[i] != b[i] {
            return false;
        }
        i = i + 1;
    }
    assert(a@ =~= b@);
    true
}


/// The index of the first occurrence of `c` in `s`, or -1.
pub open spec fn find(s: Seq<char>, c: char) -> int
    decreases s.len(),
{
    if s.len() == 0 {
        -1
    } else if s[0] == c {
        0
    } else {
        let r = find(s.drop_first(), c);
        if r < 0 {
            -1
        } else {
            r + 1
        }
    }
}

pub proof fn lemma_find_at(s: Seq<char>, c: char, i: int)
    requires
        0 <= i < s.len(),
        s[i] == c,
        forall|j: int| 0 <= j < i ==> #[trigger] s[j] != c,
    ensures
        find(s, c) == i,
    decreases i,
{
    if i > 0 {
        let t = s.drop_first();
        assert forall|j: int| 0 <= j < i - 1 implies #[trigger] t[j] != c by {
            assert(t[j] == s[j + 1]);
        }
        lemma_find_at(t, c, i - 1);
    }
}

pub proof fn lemma_find_none(s: Seq<char>, c: char)
    requires
        forall|j: int| 0 <= j < s.len() ==> #[trigger] s[j] != c,
    ensures
        find(s, c) == -1,
    decreases s.len(),
{
    if s.len() > 0 {
        let t = s.drop_first();
        assert forall|j: int| 0 <= j < t.len() implies #[trigger] t[j] != c by {
            assert(t[j] == s[j + 1]);
        }
        lemma_find_none(t, c);
    }
}

pub proof fn lemma_find_facts(s: Seq<char>, c: char)
    ensures
        -1 <= find(s, c) < s.len(),
        find(s, c) >= 0 ==> s[find(s, c)] == c,
        find(s, c) >= 0 ==> forall|j: int| 0 <= j < find(s, c) ==> #[trigger] s[j] != c,
        find(s, c) < 0 ==> forall|j: int| 0 <= j < s.len() ==> #[trigger] s[j] != c,
    decreases s.len(),
{
    if s.len() > 0 {
        let t = s.drop_first();
        lemma_find_facts(t, c);
        if s[0] != c {
            if find(t, c) >= 0 {
                assert forall|j: int| 0 <= j < find(s, c) implies #[trigger] s[j] != c by {
                    if j > 0 {
                        assert(s[j] == t[j - 1]);
                    }
                }
            } else {
                assert forall|j: int| 0 <= j < s.len() implies #[trigger] s[j] != c by {
                    if j > 0 {
                        assert(s[j] == t[j - 1]);
                    }
                }
            }
        }
    }
}

/// The position of the first `c` in `v`, as `str::find` with a char gives it (counted in chars).
pub fn find_char(v: &Vec<char>, c: char) -> (r: Option<usize>)
    ensures
        match r {
            Some(i) => i < v.len() && i as int == find(v@, c),
            None => find(v@, c) == -1,
        },
{
    let mut i: usize = 0;
    while i < v.len()
        invariant
            i <= v.len(),
            forall|j: int| 0 <= j < i ==> #[trigger] v@[j] != c,
        decreases v.len() - i,
    {
        if v[i] == c {
            proof {
                lemma_find_at(v@, c, i as int);
            }
            return Some(i);
        }
        i = i + 1;
    }
    proof {
        lemma_find_none(v@, c);
    }
    None
}

/// Whether `c` occurs in `v`.
pub fn has_char(v: &Vec<char>, c: char) -> (r: bool)
    ensures
        r == (find(v@, c) >= 0),
        r == v@.contains(c),
{
    proof {
        lemma_find_facts(v@, c);
    }
    let r = find_char(v, c);
    match r {
        Some(i) => {
            assert(v@[i as int] == c);
            true
        },
        None => false,
    }
}

/// The pieces of `s` between occurrences of `c`, as `str::split` with a char yields them.
pub open spec fn split(s: Seq<char>, c: char) -> Seq<Seq<char>>
    decreases s.len(),
{
    let i = find(s, c);
    if i < 0 || i >= s.len() {
        seq![s]
    } else {
        seq![s.subrange(0, i)] + split(s.subrange(i + 1, s.len() as int), c)
    }
}

pub proof fn lemma_split_len(s: Seq<char>, c: char)
    ensures
        split(s, c).len() >= 1,
        find(s, c) >= 0 ==> split(s, c).len() >= 2,
    decreases s.len(),
{
    lemma_find_facts(s, c);
    let i = find(s, c);
    if i >= 0 && i < s.len() {
        lemma_split_len(s.subrange(i + 1, s.len() as int), c);
    }
}

/// The pieces of `v` between occurrences of `c`.
pub fn split_chars(v: &Vec<char>, c: char) -> (r: Vec<Vec<char>>)
    ensures
        views(r@) == split(v@, c),
{
    let mut out: Vec<Vec<char>> = Vec::new();
    let mut rest: Vec<char> = slice_of(v, 0, v.len());
    assert(rest@ =~= v@);
    loop
        invariant
            views(out@) + split(rest@, c) == split(v@, c),
        decreases rest@.len(),
    {
        proof {
            lemma_find_facts(rest@, c);
        }
        match find_char(&rest, c) {
            None => {
                let ghost before = views(out@);
                out.push(rest);
                assert(views(out@) =~= before + split(rest@, c));
                return out;
            },
            Some(i) => {
                let head = slice_of(&rest, 0, i);
                let tail = slice_of(&rest, i + 1, rest.len());
                let ghost before = views(out@);
                let ghost old_rest = rest@;
                out.push(head);
                assert(views(out@) =~= before + seq![old_rest.subrange(0, i as int)]);
                assert(split(old_rest, c) == seq![old_rest.subrange(0, i as int)] + split(tail@, c));
                assert(views(out@) + split(tail@, c) =~= before + split(old_rest, c));
                rest = tail;
            },
        }
    }
}

/// The character sequences held by a vector of character vectors.
pub open spec fn views(vs: Seq<Vec<char>>) -> Seq<Seq<char>> {
    vs.map_values(|x: Vec<char>| x@)
}

/// The character sequences held by a sequence of strings.
pub open spec fn texts(ls: Seq<String>) -> Seq<Seq<char>> {
    ls.map_values(|s: String| s@)
}

/// `l` without one trailing carriage return.
pub open spec fn strip_cr(l: Seq<char>) -> Seq<char> {
    if l.len() > 0 && l.last() == '\r' {
        l.drop_last()
    } else {
        l
    }
}

/// The lines of `s`, as `str::lines` yields them: split at `\n`, a `\r` before it dropped,
/// and no empty line after a final line ending.
pub open spec fn lines(s: Seq<char>) -> Seq<Seq<char>>
    decreases s.len(),
{
    if s.len() == 0 {
        seq![]
    } else {
        let i = find(s, '\n');
        if i < 0 || i >= s.len() {
            seq![s]
        } else {
            seq![strip_cr(s.subrange(0, i))] + lines(s.subrange(i + 1, s.len() as int))
        }
    }
}

fn strip_cr_chars(v: Vec<char>) -> (r: Vec<char>)
    ensures
        r@ == strip_cr(v@),
{
    if v.len() > 0 && v[v.len() - 1] == '\r' {
        slice_of(&v, 0, v.len() - 1)
    } else {
        v
    }
}

/// The lines of `v`.
pub fn lines_of(v: &Vec<char>) -> (r: Vec<Vec<char>>)
    ensures
        views(r@) == lines(v@),
{
    let mut out: Vec<Vec<char>> = Vec::new();
    let mut rest: Vec<char> = slice_of(v, 0, v.len());
    assert(rest@ =~= v@);
    loop
        invariant
            views(out@) + lines(rest@) == lines(v@),
        decreases rest@.len(),
    {
        if rest.len() == 0 {
            assert(views(out@) + lines(rest@) =~= views(out@));
            return out;
        }
        proof {
            lemma_find_facts(rest@, '\n');
        }
        match find_char(&rest, '\n') {
            None => {
                let ghost before = views(out@);
                out.push(rest);
                assert(views(out@) =~= before + lines(rest@));
                return out;
            },
            Some(i) => {
                let head = strip_cr_chars(slice_of(&rest, 0, i));
                let tail = slice_of(&rest, i + 1, rest.len());
                let ghost before = views(out@);
                let ghost old_rest = rest@;
                out.push(head);
                assert(views(out@) =~= before + seq![strip_cr(old_rest.subrange(0, i as int))]);
                assert(views(out@) + lines(tail@) =~= before + lines(old_rest));
                rest = tail;
            },
        }
    }
}


/// ASCII lower case of one character; other characters are kept.
pub open spec fn lower_char(c: char) -> char {
    if 65 <= (c as int) && (c as int) <= 90 {
        ((c as int) + 32) as char
    } else {
        c
    }
}

/// ASCII lower case of a sequence, as `str::to_ascii_lowercase` gives it.
pub open spec fn ascii_lower(s: Seq<char>) -> Seq<char> {
    s.map_values(|c: char| lower_char(c))
}

/// Whether `a` and `b` match ignoring ASCII case, as `str::eq_ignore_ascii_case` decides.
pub open spec fn eq_ignore_case(a: Seq<char>, b: Seq<char>) -> bool {
    ascii_lower(a) == ascii_lower(b)
}

pub fn lower_char_exec(c: char) -> (r: char)
    ensures
        r == lower_char(c),
{
    if 'A' <= c && c <= 'Z' {
        let b: u8 = c as u8;
        (b + 32) as char
    } else {
        c
    }
}

/// Whether `a` and `b` match ignoring ASCII case.
pub fn eq_ignore_case_chars(a: &Vec<char>, b: &Vec<char>) -> (r: bool)
    ensures
        r == eq_ignore_case(a@, b@),
{
    if a.len() != b.len() {
        assert(ascii_lower(a@).len() != ascii_lower(b@).len());
        return false;
    }
    let mut i: usize = 0;
    while i < a.len()
        invariant
            a.len() == b.len(),
            i <= a.len(),
            forall|j: int| 0 <= j < i ==> lower_char(a@[j]) == lower_char(b@[j]),
        decreases a.len() - i,
    {
        if lower_char_exec(a[i]) != lower_char_exec(b[i]) {
            assert(ascii_lower(a@)[i as int] != ascii_lower(b@)[i as int]);
            return false;
        }
        i = i + 1;
    }
    assert(ascii_lower(a@) =~= ascii_lower(b@));
    true
}

/// Whether `p` occurs in `s` as a contiguous piece.
pub open spec fn contains_seq(s: Seq<char>, p: Seq<char>) -> bool {
    exists|i: int| 0 <= i && i + p.len() <= s.len() && #[trigger] s.subrange(i, i + p.len()) == p
}

/// Whether `p` occurs in `s` as a contiguous piece.
pub fn contains_chars(s: &Vec<char>, p: &Vec<char>) -> (r: bool)
    ensures
        r == contains_seq(s@, p@),
{
    if p.len() > s.len() {
        return false;
    }
    let last: usize = s.len() - p.len();
    let mut i: usize = 0;
    while i <= last
        invariant
            last + p.len() == s.len(),
            i <= last + 1,
            forall|k: int| 0 <= k < i ==> #[trigger] s@.subrange(k, k + p.len()) != p@,
        decreases last + 1 - i,
    {
        let mut j: usize = 0;
        let mut ok: bool = true;
        while j < p.len()
            invariant
                i <= last,
                last + p.len() == s.len(),
                j <= p.len(),
                ok ==> forall|m: int| 0 <= m < j ==> s@[i + m] == p@[m],
                !ok ==> s@.subrange(i as int, i + p.len()) != p@,
            decreases p.len() - j,
        {
            if s[i + j] != p[j] {
                assert(s@.subrange(i as int, i + p.len())[j as int] != p@[j as int]);
                ok = false;
            }
            j = j + 1;
        }
        if ok {
            assert(s@.subrange(i as int, i + p.len()) =~= p@);
            return true;
        }
        if i == last {
            return false;
        }
        i = i + 1;
    }
    false
}

/// The first whitespace-separated word of `s`, as `split_whitespace().next()` gives it.
pub open spec fn first_word(s: Seq<char>) -> Option<Seq<char>> {
    let t = trim_start(s);
    if t.len() == 0 {
        None
    } else {
        Some(word_prefix(t))
    }
}

/// The longest prefix of `s` without whitespace.
pub open spec fn word_prefix(s: Seq<char>) -> Seq<char>
    decreases s.len(),
{
    if s.len() == 0 || is_ws(s[0]) {
        seq![]
    } else {
        seq![s[0]] + word_prefix(s.drop_first())
    }
}

pub proof fn lemma_word_prefix_at(s: Seq<char>, k: int)
    requires
        0 <= k <= s.len(),
        forall|j: int| 0 <= j < k ==> !is_ws(#[trigger] s[j]),
        k == s.len() || is_ws(s[k]),
    ensures
        word_prefix(s) == s.subrange(0, k),
    decreases k,
{
    if k > 0 {
        let t = s.drop_first();
        assert forall|j: int| 0 <= j < k - 1 implies !is_ws(#[trigger] t[j]) by {
            assert(t[j] == s[j + 1]);
        }
        lemma_word_prefix_at(t, k - 1);
        assert(seq![s[0]] + t.subrange(0, k - 1) =~= s.subrange(0, k));
    } else {
        assert(s.subrange(0, 0) =~= Seq::<char>::empty());
    }
}

/// The first whitespace-separated word of `v`.
pub fn first_word_chars(v: &Vec<char>) -> (r: Option<Vec<char>>)
    ensures
        match r {
            Some(w) => first_word(v@) == Some(w@),
            None => first_word(v@) is None,
        },
{
    let t = trim_start_chars(v);
    if t.len() == 0 {
        return None;
    }
    let mut k: usize = 0;
    while k < t.len() && !is_ws_exec(t[k])
        invariant
            k <= t.len(),
            forall|j: int| 0 <= j < k ==> !is_ws(#[trigger] t@[j]),
        decreases t.len() - k,
    {
        k = k + 1;
    }
    proof {
        lemma_word_prefix_at(t@, k as int);
    }
    Some(slice_of(&t, 0, k))
}

/// Whether `c` is an ASCII decimal digit.
pub open spec fn is_digit(c: char) -> bool {
    48 <= (c as int) && (c as int) <= 57
}

/// Whether every character of `s` is an ASCII decimal digit.
pub open spec fn all_digits(s: Seq<char>) -> bool {
    forall|i: int| 0 <= i < s.len() ==> is_digit(#[trigger] s[i])
}

/// The number that the decimal digits `s` denote.
pub open spec fn digits_value(s: Seq<char>) -> int
    decreases s.len(),
{
    if s.len() == 0 {
        0
    } else {
        digits_value(s.drop_last()) * 10 + ((s.last() as int) - 48)
    }
}

pub fn is_digit_exec(c: char) -> (r: bool)
    ensures
        r == is_digit(c),
{
    '0' <= c && c <= '9'
}

fn digit_exec(c: char) -> (r: u64)
    requires
        is_digit(c),
    ensures
        r == (c as int) - 48,
{
    let b: u8 = c as u8;
    (b - 48) as u64
}

/// `s` without one leading `+`.
pub open spec fn without_plus(s: Seq<char>) -> Seq<char> {
    if s.len() > 0 && s[0] == '+' {
        s.drop_first()
    } else {
        s
    }
}

/// What `str::parse` gives for an unsigned integer type whose largest value is `max`:
/// an optional `+`, then at least one digit, and a value that fits.
pub open spec fn parse_unsigned(s: Seq<char>, max: int) -> Option<int> {
    let d = without_plus(s);
    if d.len() > 0 && all_digits(d) && digits_value(d) <= max {
        Some(digits_value(d))
    } else {
        None
    }
}

pub proof fn lemma_digits_value_prefix(s: Seq<char>, k: int)
    requires
        all_digits(s),
        0 <= k <= s.len(),
    ensures
        0 <= digits_value(s.take(k)) <= digits_value(s),
    decreases s.len(),
{
    if s.len() > 0 {
        let t = s.drop_last();
        assert(all_digits(t)) by {
            assert forall|i: int| 0 <= i < t.len() implies is_digit(#[trigger] t[i]) by {
                assert(t[i] == s[i]);
            }
        }
        if k < s.len() {
            lemma_digits_value_prefix(t, k);
            assert(t.take(k) =~= s.take(k));
        } else {
            assert(s.take(k) =~= s);
            lemma_digits_value_prefix(t, t.len() as int);
            assert(t.take(t.len() as int) =~= t);
            assert(is_digit(s.last()));
        }
    } else {
        assert(s.take(k) =~= s);
    }
}

/// `str::parse` for an unsigned integer type whose largest value is `max`.
pub fn parse_unsigned_chars(v: &Vec<char>, max: u64) -> (r: Option<u64>)
    ensures
        match r {
            Some(x) => parse_unsigned(v@, max as int) == Some(x as int),
            None => parse_unsigned(v@, max as int) is None,
        },
        r matches Some(x) ==> x <= max,
{
    let start: usize = if v.len() > 0 && v[0] == '+' {
        1
    } else {
        0
    };
    let ghost d = without_plus(v@);
    assert(d =~= v@.subrange(start as int, v@.len() as int));
    if start >= v.len() {
        return None;
    }
    let mut i: usize = start;
    while i < v.len()
        invariant
            start <= i <= v.len(),
            d =~= v@.subrange(start as int, v@.len() as int),
            d == without_plus(v@),
            forall|j: int| start <= j < i ==> is_digit(#[trigger] v@[j]),
        decreases v.len() - i,
    {
        if !is_digit_exec(v[i]) {
            assert(d[i - start] == v@[i as int]);
            assert(!is_digit(d[i - start]));
            assert(!all_digits(d));
            return None;
        }
        i = i + 1;
    }
    assert(all_digits(d)) by {
        assert forall|j: int| 0 <= j < d.len() implies is_digit(#[trigger] d[j]) by {
            assert(d[j] == v@[start + j]);
        }
    }
    let mut acc: u64 = 0;
    let mut i: usize = start;
    assert(d.take(0) =~= Seq::<char>::empty());
    while i < v.len()
        invariant
            start <= i <= v.len(),
            d =~= v@.subrange(start as int, v@.len() as int),
            d == without_plus(v@),
            all_digits(d),
            acc as int == digits_value(d.take(i - start)),
            acc <= max,
        decreases v.len() - i,
    {
        let ghost pre = d.take(i - start);
        let ghost nxt = d.take(i - start + 1);
        assert(nxt.drop_last() =~= pre);
        assert(nxt.last() == v@[i as int]);
        assert(d[i - start] == v@[i as int]);
        assert(is_digit(d[i - start]));
        let k: u64 = digit_exec(v[i]);
        if k > max || acc > (max - k) / 10 {
            proof {
                assert(digits_value(nxt) == digits_value(pre) * 10 + k);
                if k <= max {
                    assert(digits_value(nxt) > max) by (nonlinear_arith)
                        requires
                            acc > (max - k) / 10,
                            digits_value(nxt) == acc * 10 + k,
                            k <= 9,
                            k <= max,
                    ;
                }
                lemma_digits_value_prefix(d, i - start + 1);
            }
            return None;
        }
        proof {
            assert(acc * 10 + k <= max) by (nonlinear_arith)
                requires
                    acc <= (max - k) / 10,
                    k <= max,
            ;
        }
        acc = acc * 10 + k;
        i = i + 1;
    }
    assert(d.take(d.len() as int) =~= d);
    Some(acc)
}


/// ASCII lower case of every character of `v`.
pub fn ascii_lower_chars(v: &Vec<char>) -> (r: Vec<char>)
    ensures
        r@ == ascii_lower(v@),
{
    let mut r: Vec<char> = Vec::new();
    let mut i: usize = 0;
    while i < v.len()
        invariant
            i <= v.len(),
            r@ =~= ascii_lower(v@.take(i as int)),
        decreases v.len() - i,
    {
        r.push(lower_char_exec(v[i]));
        i = i + 1;
        assert(ascii_lower(v@.take(i as int)) =~= ascii_lower(v@.take(i - 1)).push(lower_char(v@[i - 1])));
    }
    assert(v@.take(v.len() as int) =~= v@);
    r
}

/// `s` without one leading `+` or `-`.
pub open spec fn without_sign(s: Seq<char>) -> Seq<char> {
    if s.len() > 0 && (s[0] == '+' || s[0] == '-') {
        s.drop_first()
    } else {
        s
    }
}

/// The digits of a mantissa with at most one `.` and at least one digit.
pub open spec fn is_mantissa(m: Seq<char>) -> bool {
    let p = find(m, '.');
    if p < 0 {
        m.len() > 0 && all_digits(m)
    } else {
        m.len() > 1 && all_digits(m.subrange(0, p)) && all_digits(m.subrange(p + 1, m.len() as int))
    }
}

/// An optional sign followed by at least one digit.
pub open spec fn is_exponent(x: Seq<char>) -> bool {
    let y = without_sign(x);
    y.len() > 0 && all_digits(y)
}

/// A decimal number in lower case: a mantissa and an optional exponent after `e`.
pub open spec fn is_decimal(l: Seq<char>) -> bool {
    let e = find(l, 'e');
    if e < 0 {
        is_mantissa(l)
    } else {
        is_mantissa(l.subrange(0, e)) && is_exponent(l.subrange(e + 1, l.len() as int))
    }
}

/// Whether `f64::from_str` accepts `s`. Its documentation gives the grammar, read after
/// ASCII lower-casing: `Sign? ( 'inf' | 'infinity' | 'nan' | Number )`, where
/// `Number ::= ( Digit+ | Digit+ '.' Digit* | Digit* '.' Digit+ ) Exp?` and
/// `Exp ::= 'e' Sign? Digit+`.
pub open spec fn is_float_literal(s: Seq<char>) -> bool {
    let l = ascii_lower(without_sign(s));
    ||| l == seq!['i', 'n', 'f']
    ||| l == seq!['i', 'n', 'f', 'i', 'n', 'i', 't', 'y']
    ||| l == seq!['n', 'a', 'n']
    ||| is_decimal(l)
}

fn all_digits_chars(v: &Vec<char>) -> (r: bool)
    ensures
        r == all_digits(v@),
{
    let mut i: usize = 0;
    while i < v.len()
        invariant
            i <= v.len(),
            forall|j: int| 0 <= j < i ==> is_digit(#[trigger] v@[j]),
        decreases v.len() - i,
    {
        if !is_digit_exec(v[i]) {
            return false;
        }
        i = i + 1;
    }
    true
}

fn without_sign_chars(v: &Vec<char>) -> (r: Vec<char>)
    ensures
        r@ == without_sign(v@),
{
    if v.len() > 0 && (v[0] == '+' || v[0] == '-') {
        slice_of(v, 1, v.len())
    } else {
        slice_of(v, 0, v.len())
    }
}

fn is_mantissa_chars(m: &Vec<char>) -> (r: bool)
    ensures
        r == is_mantissa(m@),
{
    match find_char(m, '.') {
        None => m.len() > 0 && all_digits_chars(m),
        Some(p) => {
            proof {
                lemma_find_facts(m@, '.');
            }
            m.len() > 1 && all_digits_chars(&slice_of(m, 0, p)) && all_digits_chars(
                &slice_of(m, p + 1, m.len()),
            )
        },
    }
}

fn is_exponent_chars(x: &Vec<char>) -> (r: bool)
    ensures
        r == is_exponent(x@),
{
    let y = without_sign_chars(x);
    y.len() > 0 && all_digits_chars(&y)
}

/// Whether `f64::from_str` accepts `v`.
pub fn is_float_literal_chars(v: &Vec<char>) -> (r: bool)
    ensures
        r == is_float_literal(v@),
{
    let l = ascii_lower_chars(&without_sign_chars(v));
    if chars_eq(&l, &vec!['i', 'n', 'f']) || chars_eq(&l, &vec!['i', 'n', 'f', 'i', 'n', 'i', 't', 'y'])
        || chars_eq(&l, &vec!['n', 'a', 'n']) {
        return true;
    }
    proof {
        lemma_find_facts(l@, 'e');
    }
    match find_char(&l, 'e') {
        None => is_mantissa_chars(&l),
        Some(e) => is_mantissa_chars(&slice_of(&l, 0, e)) && is_exponent_chars(
            &slice_of(&l, e + 1, l.len()),
        ),
    }
}

/// The decimal digit character for `d`.
pub open spec fn digit_char(d: int) -> char {
    (d + 48) as char
}

/// The decimal text of `n`, without leading zeros.
pub open spec fn decimal(n: nat) -> Seq<char>
    decreases n,
{
    if n < 10 {
        seq![digit_char(n as int)]
    } else {
        decimal(n / 10).push(digit_char((n % 10) as int))
    }
}

/// The decimal text of `n`, as `format!("{}", n)` writes it.
pub fn decimal_chars(n: u64) -> (r: Vec<char>)
    ensures
        r@ == decimal(n as nat),
    decreases n,
{
    let d: u8 = (n % 10) as u8;
    let c: char = (d + 48) as char;
    if n < 10 {
        vec![c]
    } else {
        let mut r = decimal_chars(n / 10);
        r.push(c);
        r
    }
}

pub proof fn lemma_decimal_digits(n: nat)
    ensures
        (digit_char((n % 10) as int) as int) == n % 10 + 48,
        decimal(n).len() > 0,
        all_digits(decimal(n)),
        digits_value(decimal(n)) == n,
        decimal(n)[0] != '+',
    decreases n,
{
    if n >= 10 {
        lemma_decimal_digits(n / 10);
        let s = decimal(n);
        assert(s.drop_last() =~= decimal(n / 10));
        assert((digit_char((n % 10) as int) as int) == n % 10 + 48);
        assert(n == (n / 10) * 10 + n % 10) by (nonlinear_arith);
        assert forall|i: int| 0 <= i < s.len() implies is_digit(#[trigger] s[i]) by {
            if i < s.len() - 1 {
                assert(s[i] == decimal(n / 10)[i]);
            }
        }
        assert(digits_value(s) == digits_value(s.drop_last()) * 10 + ((s.last() as int) - 48));
    } else {
        let s = decimal(n);
        assert(s.drop_last() =~= Seq::<char>::empty());
        assert(digits_value(s.drop_last()) == 0);
        assert(n % 10 == n);
        assert(digits_value(s) == digits_value(s.drop_last()) * 10 + ((s.last() as int) - 48));
    }
}

/// The text of `v` as a `String`: the `FromIterator<char>` impl of `String`, which appends
/// the characters in order.
#[verifier::external_body]
pub(crate) fn string_of(v: &Vec<char>) -> (s: String)
    ensures
        s@ == v@,
{
    v.iter().collect()
}

/// The text of a string slice as an owned `String`.
pub fn owned(s: &str) -> (r: String)
    ensures
        r@ == s@,
{
    s.to_owned()
}

/// What `str::to_uppercase` returns for a string with the characters `s`: the Unicode
/// upper-case mapping, character by character, where one character may map to several.
pub uninterp spec fn upper_text(s: Seq<char>) -> Seq<char>;

/// What `str::to_lowercase` returns for a string with the characters `s`.
pub uninterp spec fn lower_text(s: Seq<char>) -> Seq<char>;

/// Calls `str::to_uppercase` on the text `v`; the result is named by `upper_text`.
#[verifier::external_body]
pub(crate) fn to_upper_chars(v: &Vec<char>) -> (r: Vec<char>)
    ensures
        r@ == upper_text(v@),
{
    let s: String = v.iter().collect();
    s.to_uppercase().chars().collect()
}

/// Calls `str::to_lowercase` on the text `v`; the result is named by `lower_text`.
#[verifier::external_body]
pub(crate) fn to_lower_chars(v: &Vec<char>) -> (r: Vec<char>)
    ensures
        r@ == lower_text(v@),
{
    let s: String = v.iter().collect();
    s.to_lowercase().chars().collect()
}


/// What `char::is_alphanumeric` returns for `c`: whether it has the Unicode property
/// `Alphabetic` or a numeric general category.
pub uninterp spec fn alphanumeric(c: char) -> bool;

/// Calls `char::is_alphanumeric`; the result is named by `alphanumeric`.
#[verifier::external_body]
pub(crate) fn is_alphanumeric(c: char) -> (r: bool)
    ensures
        r == alphanumeric(c),
{
    c.is_alphanumeric()
}

/// Appends the characters of `s` to `out`.
pub fn extend_chars(out: &mut Vec<char>, s: &Vec<char>)
    ensures
        final(out)@ == old(out)@ + s@,
{
    let mut i: usize = 0;
    while i < s.len()
        invariant
            i <= s.len(),
            out@ == old(out)@ + s@.take(i as int),
        decreases s.len() - i,
    {
        out.push(s[i]);
        i = i + 1;
        assert(s@.take(i as int) =~= s@.take(i - 1).push(s@[i - 1]));
        assert(old(out)@ + s@.take(i as int) =~= (old(out)@ + s@.take(i - 1)).push(s@[i - 1]));
    }
    assert(s@.take(s.len() as int) =~= s@);
}

/// The text of `a` followed by the text of `b`.
pub fn cat(a: &str, b: &str) -> (r: String)
    ensures
        r@ == a@ + b@,
{
    let mut v = chars_of(a);
    extend_chars(&mut v, &chars_of(b));
    string_of(&v)
}

/// `prefix` followed by the decimal text of `n`.
pub fn numbered(prefix: &str, n: u64) -> (r: Vec<char>)
    ensures
        r@ == prefix@ + decimal(n as nat),
{
    let mut r = chars_of(prefix);
    extend_chars(&mut r, &decimal_chars(n));
    r
}


/// Whether `s` begins with `p`.
pub open spec fn starts_with(s: Seq<char>, p: Seq<char>) -> bool {
    p.len() <= s.len() && s.subrange(0, p.len() as int) == p
}

/// Whether `s` begins with `p`.
pub fn starts_with_chars(s: &Vec<char>, p: &Vec<char>) -> (r: bool)
    ensures
        r == starts_with(s@, p@),
{
    if p.len() > s.len() {
        return false;
    }
    let head = slice_of(s, 0, p.len());
    chars_eq(&head, p)
}


/// Whether no character of `s` is a line feed or a carriage return.
pub open spec fn breakless(s: Seq<char>) -> bool {
    forall|i: int| 0 <= i < s.len() ==> #[trigger] s[i] != '\n' && s[i] != '\r'
}

/// Whether `s` holds no whitespace.
pub open spec fn wordlike(s: Seq<char>) -> bool {
    forall|i: int| 0 <= i < s.len() ==> !is_ws(#[trigger] s[i])
}

pub proof fn lemma_trim_wordlike(s: Seq<char>)
    requires
        wordlike(s),
    ensures
        trim_start(s) == s,
        trim(s) == s,
        first_word(s) == (if s.len() == 0 { None::<Seq<char>> } else { Some(s) }),
{
    lemma_trim_start_at(s, 0);
    assert(s.subrange(0, s.len() as int) =~= s);
    lemma_trim_end_at(s, s.len() as int);
    lemma_word_prefix_at(s, s.len() as int);
}

pub proof fn lemma_first_word_prefix(w: Seq<char>, rest: Seq<char>)
    requires
        w.len() > 0,
        wordlike(w),
        rest.len() > 0,
        is_ws(rest[0]),
    ensures
        first_word(w + rest) == Some(w),
{
    let s = w + rest;
    lemma_trim_start_at(s, 0);
    assert(s.subrange(0, s.len() as int) =~= s);
    assert forall|j: int| 0 <= j < w.len() implies !is_ws(#[trigger] s[j]) by {
        assert(s[j] == w[j]);
    }
    assert(s[w.len() as int] == rest[0]);
    lemma_word_prefix_at(s, w.len() as int);
    assert(s.subrange(0, w.len() as int) =~= w);
}

pub proof fn lemma_trim_blank_when_wordstart(s: Seq<char>)
    requires
        s.len() > 0,
        !is_ws(s[0]),
    ensures
        trim(s).len() > 0,
        trim_start(s) == s,
{
    lemma_trim_start_at(s, 0);
    assert(s.subrange(0, s.len() as int) =~= s);
    lemma_trim_end_keeps_first(s);
}

proof fn lemma_trim_end_keeps_first(s: Seq<char>)
    requires
        s.len() > 0,
        !is_ws(s[0]),
    ensures
        trim_end(s).len() > 0,
    decreases s.len(),
{
    if s.len() > 1 && is_ws(s.last()) {
        lemma_trim_end_keeps_first(s.drop_last());
    }
}

pub proof fn lemma_trim_blank(s: Seq<char>)
    requires
        forall|i: int| 0 <= i < s.len() ==> is_ws(#[trigger] s[i]),
    ensures
        trim(s).len() == 0,
    decreases s.len(),
{
    if s.len() > 0 {
        let t = s.drop_first();
        assert forall|i: int| 0 <= i < t.len() implies is_ws(#[trigger] t[i]) by {
            assert(t[i] == s[i + 1]);
        }
        lemma_trim_blank(t);
        assert(trim_start(s) == trim_start(t));
    }
}

pub proof fn lemma_contains_suffix(a: Seq<char>, p: Seq<char>)
    ensures
        contains_seq(a + p, p),
{
    let s = a + p;
    assert(s.subrange(a.len() as int, (a.len() + p.len()) as int) =~= p);
}

pub proof fn lemma_not_contains(s: Seq<char>, p: Seq<char>, k: int)
    requires
        0 <= k < p.len(),
        forall|i: int| 0 <= i < s.len() ==> #[trigger] s[i] != p[k],
    ensures
        !contains_seq(s, p),
{
    if contains_seq(s, p) {
        let i = choose|i: int| 0 <= i && i + p.len() <= s.len() && #[trigger] s.subrange(i, i + p.len()) == p;
        assert(s.subrange(i, i + p.len())[k] == s[i + k]);
    }
}

/// Whether `s` holds no line feed.
pub open spec fn newline_free(s: Seq<char>) -> bool {
    forall|i: int| 0 <= i < s.len() ==> #[trigger] s[i] != '\n'
}

proof fn lemma_trim_start_suffix(s: Seq<char>)
    ensures
        trim_start(s) == s.subrange(s.len() - trim_start(s).len(), s.len() as int),
        trim_start(s).len() <= s.len(),
        trim_start(s).len() == 0 || !is_ws(trim_start(s)[0]),
    decreases s.len(),
{
    if s.len() > 0 && is_ws(s[0]) {
        lemma_trim_start_suffix(s.drop_first());
        let t = trim_start(s.drop_first());
        assert(s.drop_first().subrange(s.len() - 1 - t.len(), s.len() - 1) =~= s.subrange(
            s.len() - t.len(),
            s.len() as int,
        ));
    } else {
        assert(s.subrange(0, s.len() as int) =~= s);
    }
}

proof fn lemma_trim_end_prefix(s: Seq<char>)
    ensures
        trim_end(s) == s.subrange(0, trim_end(s).len() as int),
        trim_end(s).len() <= s.len(),
        trim_end(s).len() == 0 || !is_ws(trim_end(s).last()),
    decreases s.len(),
{
    if s.len() > 0 && is_ws(s.last()) {
        lemma_trim_end_prefix(s.drop_last());
        let t = trim_end(s.drop_last());
        assert(s.drop_last().subrange(0, t.len() as int) =~= s.subrange(0, t.len() as int));
    } else {
        assert(s.subrange(0, s.len() as int) =~= s);
    }
}

/// What `trim` keeps: a stretch of `s` that is empty or begins and ends with a
/// non-whitespace character.
pub proof fn lemma_trim_shape(s: Seq<char>)
    ensures
        exists|a: int| 0 <= a && a + trim(s).len() <= s.len() && #[trigger] s.subrange(a, a + trim(s).len()) == trim(s),
        trim(s).len() == 0 || (!is_ws(trim(s)[0]) && !is_ws(trim(s).last())),
{
    lemma_trim_start_suffix(s);
    let u = trim_start(s);
    lemma_trim_end_prefix(u);
    let t = trim(s);
    let a = s.len() - u.len();
    assert(s.subrange(a, a + t.len()) =~= t);
    if t.len() > 0 {
        assert(t[0] == u[0]);
    }
}

/// A text that is empty or begins and ends with a non-whitespace character is its own
/// trim.
pub proof fn lemma_trim_fixed(s: Seq<char>)
    requires
        s.len() == 0 || (!is_ws(s[0]) && !is_ws(s.last())),
    ensures
        trim(s) == s,
{
    if s.len() > 0 {
        lemma_trim_start_at(s, 0);
        assert(s.subrange(0, s.len() as int) =~= s);
        lemma_trim_end_at(s, s.len() as int);
    }
}

/// Trimming twice is trimming once; a trimmed text of a text without line feeds has none.
pub proof fn lemma_trim_trim(s: Seq<char>)
    ensures
        trim(trim(s)) == trim(s),
        newline_free(s) ==> newline_free(trim(s)),
{
    lemma_trim_shape(s);
    lemma_trim_fixed(trim(s));
    if newline_free(s) {
        let t = trim(s);
        let a = choose|a: int| 0 <= a && a + t.len() <= s.len() && #[trigger] s.subrange(a, a + t.len()) == t;
        assert forall|i: int| 0 <= i < t.len() implies #[trigger] t[i] != '\n' by {
            assert(t[i] == s.subrange(a, a + t.len())[i]);
        }
    }
}

/// No line of a text holds a line feed.
pub proof fn lemma_lines_newline_free(s: Seq<char>)
    ensures
        forall|k: int| 0 <= k < lines(s).len() ==> newline_free(#[trigger] lines(s)[k]),
    decreases s.len(),
{
    if s.len() > 0 {
        lemma_find_facts(s, '\n');
        let i = find(s, '\n');
        if i < 0 || i >= s.len() {
        } else {
            let rest = s.subrange(i + 1, s.len() as int);
            lemma_lines_newline_free(rest);
            let h = strip_cr(s.subrange(0, i));
            assert forall|j: int| 0 <= j < h.len() implies #[trigger] h[j] != '\n' by {
                assert(h[j] == s[j]);
            }
            let ls = lines(s);
            assert(ls == seq![h] + lines(rest));
            assert forall|k: int| 0 <= k < ls.len() implies newline_free(#[trigger] ls[k]) by {
                if k > 0 {
                    assert(ls[k] == lines(rest)[k - 1]);
                }
            }
        }
    }
}

/// Whether `s` comes back unchanged as one line of `lines`: it holds no line feed and does
/// not end with a carriage return.
pub open spec fn line_safe(s: Seq<char>) -> bool {
    &&& newline_free(s)
    &&& (s.len() == 0 || s[s.len() - 1] != '\r')
}

/// A trimmed text holds no character that the text does not hold, and it does not end with
/// a carriage return.
pub proof fn lemma_trim_keeps_absent(s: Seq<char>, c: char)
    ensures
        !s.contains(c) ==> !trim(s).contains(c),
        trim(s).len() == 0 || trim(s)[trim(s).len() - 1] != '\r',
        newline_free(s) ==> line_safe(trim(s)),
{
    lemma_trim_shape(s);
    lemma_trim_trim(s);
    let t = trim(s);
    let a = choose|a: int| 0 <= a && a + t.len() <= s.len() && #[trigger] s.subrange(a, a + t.len()) == t;
    if !s.contains(c) && t.contains(c) {
        let i = choose|i: int| 0 <= i < t.len() && t[i] == c;
        assert(t[i] == s.subrange(a, a + t.len())[i]);
        assert(s[a + i] == c);
    }
    if t.len() > 0 {
        assert(t.last() == t[t.len() - 1]);
        assert(is_ws('\r'));
    }
}

/// No piece of a split holds the separator, and the pieces of a text without line feeds
/// hold none.
pub proof fn lemma_split_pieces(s: Seq<char>, c: char)
    ensures
        forall|k: int| 0 <= k < split(s, c).len() ==> !(#[trigger] split(s, c)[k]).contains(c),
        newline_free(s) ==> forall|k: int| 0 <= k < split(s, c).len() ==> newline_free(#[trigger] split(s, c)[k]),
    decreases s.len(),
{
    lemma_find_facts(s, c);
    let i = find(s, c);
    let p = split(s, c);
    if i < 0 || i >= s.len() {
        assert(p == seq![s]);
        assert(p[0] == s);
    } else {
        let rest = s.subrange(i + 1, s.len() as int);
        lemma_split_pieces(rest, c);
        let h = s.subrange(0, i);
        assert(p == seq![h] + split(rest, c));
        assert forall|k: int| 0 <= k < p.len() implies !(#[trigger] p[k]).contains(c) by {
            if k == 0 {
                assert(p[0] == h);
                if h.contains(c) {
                    let j = choose|j: int| 0 <= j < h.len() && h[j] == c;
                    assert(h[j] == s[j]);
                }
            } else {
                assert(p[k] == split(rest, c)[k - 1]);
            }
        }
        if newline_free(s) {
            assert forall|j: int| 0 <= j < rest.len() implies #[trigger] rest[j] != '\n' by {
                assert(rest[j] == s[i + 1 + j]);
            }
            assert forall|k: int| 0 <= k < p.len() implies newline_free(#[trigger] p[k]) by {
                if k == 0 {
                    assert(p[0] == h);
                    assert forall|j: int| 0 <= j < h.len() implies #[trigger] h[j] != '\n' by {
                        assert(h[j] == s[j]);
                    }
                } else {
                    assert(p[k] == split(rest, c)[k - 1]);
                }
            }
        }
    }
}

} // verus!
