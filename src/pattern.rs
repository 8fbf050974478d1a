use vstd::prelude::*;

verus! {

/// True when `s` begins with `p`.
pub open spec fn has_prefix(s: Seq<char>, p: Seq<char>) -> bool {
    p.len() <= s.len() && s.subrange(0, p.len() as int) == p
}

/// True when `s` ends with `p`.
pub open spec fn has_suffix(s: Seq<char>, p: Seq<char>) -> bool {
    p.len() <= s.len() && s.subrange(s.len() - p.len(), s.len() as int) == p
}

/// `i` is the position of the one and only `*` of `p`.
pub open spec fn single_star_at(p: Seq<char>, i: int) -> bool {
    &&& 0 <= i < p.len()
    &&& p[i] == '*'
    &&& forall|j: int| 0 <= j < p.len() && j != i ==> p[j] != '*'
}

/// Whether one pattern matches a hostname, by the first rule that applies:
/// equality; a `*.` prefix (the hostname ends with the rest); a `.*` suffix
/// (the hostname starts with the rest); a single `*` anywhere (the hostname
/// starts with what precedes it and ends with what follows it).
pub open spec fn pattern_matches(p: Seq<char>, h: Seq<char>) -> bool {
    if p == h {
        true
    } else if p.len() >= 2 && p[0] == '*' && p[1] == '.' {
        has_suffix(h, p.subrange(2, p.len() as int))
    } else if p.len() >= 2 && p[p.len() - 2] == '.' && p[p.len() - 1] == '*' {
        has_prefix(h, p.subrange(0, p.len() - 2))
    } else {
        exists|i: int|
            single_star_at(p, i) && has_prefix(h, p.subrange(0, i)) && has_suffix(
                h,
                p.subrange(i + 1, p.len() as int),
            )
    }
}

/// The characters that Unicode gives the White_Space property.
pub open spec fn is_white_space(c: char) -> bool {
    ('\u{9}' <= c && c <= '\u{d}') || c == ' ' || c == '\u{85}' || c == '\u{a0}' || c == '\u{1680}'
        || ('\u{2000}' <= c && c <= '\u{200a}') || c == '\u{2028}' || c == '\u{2029}' || c
        == '\u{202f}' || c == '\u{205f}' || c == '\u{3000}'
}

/// `s` without its leading white space.
pub open spec fn trim_start(s: Seq<char>) -> Seq<char>
    decreases s.len(),
{
    if s.len() > 0 && is_white_space(s[0]) {
        trim_start(s.drop_first())
    } else {
        s
    }
}

/// `s` without its trailing white space.
pub open spec fn trim_end(s: Seq<char>) -> Seq<char>
    decreases s.len(),
{
    if s.len() > 0 && is_white_space(s.last()) {
        trim_end(s.drop_last())
    } else {
        s
    }
}

/// `s` without white space at either end.
pub open spec fn trim(s: Seq<char>) -> Seq<char> {
    trim_end(trim_start(s))
}

/// The pieces of `s` between occurrences of `sep`, as `str::split` yields them
/// (the empty sequence gives one empty piece).
pub open spec fn split_on(s: Seq<char>, sep: char) -> Seq<Seq<char>>
    decreases s.len(),
{
    if s.len() == 0 {
        seq![Seq::<char>::empty()]
    } else {
        let prev = split_on(s.drop_last(), sep);
        if s.last() == sep {
            prev.push(Seq::<char>::empty())
        } else {
            prev.update(prev.len() - 1, prev.last().push(s.last()))
        }
    }
}

/// One `;`-separated piece of a rule's pattern matches: once trimmed it is
/// non-empty and matches the hostname.
pub open spec fn piece_matches(piece: Seq<char>, h: Seq<char>) -> bool {
    trim(piece).len() > 0 && pattern_matches(trim(piece), h)
}

/// A rule's pattern matches a hostname when any of its pieces does.
pub open spec fn rule_pattern_matches(pattern: Seq<char>, h: Seq<char>) -> bool {
    exists|k: int|
        0 <= k < split_on(pattern, ';').len() && piece_matches(
            #[trigger] split_on(pattern, ';')[k],
            h,
        )
}

/// Splitting always yields at least one piece.
pub proof fn lemma_split_on_nonempty(s: Seq<char>, sep: char)
    ensures
        split_on(s, sep).len() >= 1,
    decreases s.len(),
{
    if s.len() > 0 {
        lemma_split_on_nonempty(s.drop_last(), sep);
    }
}

/// Whether `c` has Unicode's White_Space property.
pub fn is_white_space_char(c: char) -> (r: bool)
    ensures
        r == is_white_space(c),
{
    ('\u{9}' <= c && c <= '\u{d}') || c == ' ' || c == '\u{85}' || c == '\u{a0}' || c == '\u{1680}'
        || ('\u{2000}' <= c && c <= '\u{200a}') || c == '\u{2028}' || c == '\u{2029}' || c
        == '\u{202f}' || c == '\u{205f}' || c == '\u{3000}'
}

/// The characters of `s`, one per element.
pub fn chars_of(s: &str) -> (r: Vec<char>)
    ensures
        r@ == s@,
{
    let n = s.unicode_len();
    let mut r: Vec<char> = Vec::new();
    let mut i: usize = 0;
    while i < n
        invariant
            n == s@.len(),
            i <= n,
            r@ == s@.subrange(0, i as int),
        decreases n - i,
    {
        r.push(s.get_char(i));
        i += 1;
    }
    assert(r@ =~= s@);
    r
}

/// Whether `a[a0..a0+len]` and `b[b0..b0+len]` hold the same characters.
fn range_eq(a: &Vec<char>, a0: usize, b: &Vec<char>, b0: usize, len: usize) -> (r: bool)
    requires
        a0 + len <= a@.len(),
        b0 + len <= b@.len(),
    ensures
        r == (a@.subrange(a0 as int, a0 + len) == b@.subrange(b0 as int, b0 + len)),
{
    let mut k: usize = 0;
    while k < len
        invariant
            k <= len,
            a0 + len <= a.len(),
            b0 + len <= b.len(),
            forall|j: int| 0 <= j < k ==> #[trigger] a@[a0 + j] == b@[b0 + j],
        decreases len - k,
    {
        if a[a0 + k] != b[b0 + k] {
            assert(a@.subrange(a0 as int, a0 + len)[k as int] != b@.subrange(b0 as int, b0 + len)[k as int]);
            return false;
        }
        k += 1;
    }
    assert forall|j: int| 0 <= j < len implies #[trigger] a@.subrange(a0 as int, a0 + len)[j] == b@.subrange(
        b0 as int,
        b0 + len,
    )[j] by {
        assert(a@[a0 + j] == b@[b0 + j]);
    }
    assert(a@.subrange(a0 as int, a0 + len) =~= b@.subrange(b0 as int, b0 + len));
    true
}

/// Whether `h` starts with `p[from..to]`.
fn starts_with_range(h: &Vec<char>, p: &Vec<char>, from: usize, to: usize) -> (r: bool)
    requires
        from <= to <= p@.len(),
    ensures
        r == has_prefix(h@, p@.subrange(from as int, to as int)),
{
    let len = to - from;
    if len > h.len() {
        return false;
    }
    let r = range_eq(h, 0, p, from, len);
    assert(p@.subrange(from as int, to as int) == p@.subrange(from as int, from + len));
    r
}

/// Whether `h` ends with `p[from..to]`.
fn ends_with_range(h: &Vec<char>, p: &Vec<char>, from: usize, to: usize) -> (r: bool)
    requires
        from <= to <= p@.len(),
    ensures
        r == has_suffix(h@, p@.subrange(from as int, to as int)),
{
    let len = to - from;
    if len > h.len() {
        return false;
    }
    let start = h.len() - len;
    let r = range_eq(h, start, p, from, len);
    assert(h@.subrange(start as int, start + len) == h@.subrange(h@.len() - len, h@.len() as int));
    r
}

/// Whether the pattern `p` matches the hostname `h`, both as characters.
pub fn pattern_matches_chars(p: &Vec<char>, h: &Vec<char>) -> (r: bool)
    ensures
        r == pattern_matches(p@, h@),
{
    let n = p.len();
    if n == h.len() && range_eq(p, 0, h, 0, n) {
        assert(p@ =~= p@.subrange(0, n as int));
        assert(h@ =~= h@.subrange(0, n as int));
        return true;
    }
    assert(p@ != h@) by {
        if p@ == h@ {
            assert(p@.subrange(0, n as int) =~= h@.subrange(0, n as int));
        }
    }
    if n >= 2 && p[0] == '*' && p[1] == '.' {
        return ends_with_range(h, p, 2, n);
    }
    if n >= 2 && p[n - 2] == '.' && p[n - 1] == '*' {
        return starts_with_range(h, p, 0, n - 2);
    }
    let mut stars: usize = 0;
    let mut at: usize = 0;
    let mut i: usize = 0;
    while i < n
        invariant
            n == p@.len(),
            i <= n,
            stars <= i,
            stars == 0 ==> forall|j: int| 0 <= j < i ==> p@[j] != '*',
            stars >= 1 ==> at < i && p@[at as int] == '*',
            stars == 1 ==> forall|j: int| 0 <= j < i && j != at ==> p@[j] != '*',
            stars >= 2 ==> exists|j: int| 0 <= j < i && j != at && p@[j] == '*',
        decreases n - i,
    {
        if p[i] == '*' {
            if stars == 0 {
                at = i;
            } else {
                assert(p@[i as int] == '*' && i != at);
            }
            if stars < 2 {
                stars = stars + 1;
            }
        }
        i += 1;
    }
    if stars != 1 {
        assert forall|k: int| !single_star_at(p@, k) by {
            if single_star_at(p@, k) {
                if stars >= 2 {
                    let j = choose|j: int| 0 <= j < n && j != at && p@[j] == '*';
                    assert(j == k && at == k);
                }
            }
        }
        return false;
    }
    let r = starts_with_range(h, p, 0, at) && ends_with_range(h, p, at + 1, n);
    assert(single_star_at(p@, at as int));
    assert forall|k: int| single_star_at(p@, k) implies k == at by {}
    r
}

/// Whether the pattern matches the hostname: equality, `*.suffix`,
/// `prefix.*`, or a single `*` standing for any run of characters.
pub fn matches_pattern(pattern: &str, hostname: &str) -> (r: bool)
    ensures
        r == pattern_matches(pattern@, hostname@),
{
    let p = chars_of(pattern);
    let h = chars_of(hostname);
    pattern_matches_chars(&p, &h)
}

proof fn lemma_trim_start_step(s: Seq<char>, i: int)
    requires
        0 <= i < s.len(),
        is_white_space(s[i]),
    ensures
        trim_start(s.subrange(i, s.len() as int)) == trim_start(s.subrange(i + 1, s.len() as int)),
{
    assert(s.subrange(i, s.len() as int).drop_first() =~= s.subrange(i + 1, s.len() as int));
}

proof fn lemma_trim_end_step(s: Seq<char>, j: int)
    requires
        0 < j <= s.len(),
        is_white_space(s[j - 1]),
    ensures
        trim_end(s.subrange(0, j)) == trim_end(s.subrange(0, j - 1)),
{
    assert(s.subrange(0, j).drop_last() =~= s.subrange(0, j - 1));
}

/// The bounds `(a, b)` such that `s[a..b]` is `s` trimmed of white space.
pub fn trim_bounds(s: &Vec<char>) -> (r: (usize, usize))
    ensures
        r.0 <= r.1 <= s@.len(),
        s@.subrange(r.0 as int, r.1 as int) == trim(s@),
{
    let n = s.len();
    let mut a: usize = 0;
    assert(s@.subrange(0, n as int) =~= s@);
    while a < n && is_white_space_char(s[a])
        invariant
            a <= n == s@.len(),
            trim_start(s@) == trim_start(s@.subrange(a as int, n as int)),
        decreases n - a,
    {
        proof {
            lemma_trim_start_step(s@, a as int);
        }
        a += 1;
    }
    let ghost t = s@.subrange(a as int, n as int);
    assert(trim_start(s@) == t) by {
        if a == n {
            assert(t.len() == 0);
        } else {
            assert(t[0] == s@[a as int]);
        }
    }
    let mut b: usize = n;
    assert(t.subrange(0, b - a) =~= t);
    while b > a && is_white_space_char(s[b - 1])
        invariant
            a <= b <= n == s@.len(),
            t == s@.subrange(a as int, n as int),
            trim_end(t) == trim_end(t.subrange(0, b - a)),
        decreases b,
    {
        proof {
            assert(t[b - a - 1] == s@[b - 1]);
            lemma_trim_end_step(t, b - a);
        }
        b -= 1;
    }
    let ghost u = t.subrange(0, b - a);
    assert(trim_end(u) == u) by {
        if b > a {
            assert(u.last() == s@[b - 1]);
        }
    }
    assert(u =~= s@.subrange(a as int, b as int));
    (a, b)
}

/// A copy of `v[a..b]`.
pub fn copy_range(v: &Vec<char>, a: usize, b: usize) -> (r: Vec<char>)
    requires
        a <= b <= v@.len(),
    ensures
        r@ == v@.subrange(a as int, b as int),
{
    let mut r: Vec<char> = Vec::new();
    let mut i: usize = a;
    while i < b
        invariant
            a <= i <= b <= v@.len(),
            r@ == v@.subrange(a as int, i as int),
        decreases b - i,
    {
        r.push(v[i]);
        i += 1;
    }
    r
}

/// Whether one piece of a rule's pattern, trimmed, is non-empty and matches.
fn piece_matches_chars(piece: &Vec<char>, h: &Vec<char>) -> (r: bool)
    ensures
        r == piece_matches(piece@, h@),
{
    let (a, b) = trim_bounds(piece);
    if a == b {
        return false;
    }
    let t = copy_range(piece, a, b);
    pattern_matches_chars(&t, h)
}

/// Whether a rule's pattern matches the hostname: the pattern is split at
/// `;`, and any piece that is non-empty once trimmed and matches suffices.
pub fn rule_matches(pattern: &str, hostname: &str) -> (r: bool)
    ensures
        r == rule_pattern_matches(pattern@, hostname@),
{
    let p = chars_of(pattern);
    let h = chars_of(hostname);
    let n = p.len();
    let mut cur: Vec<char> = Vec::new();
    let mut found = false;
    let mut i: usize = 0;
    proof {
        assert(p@.subrange(0, 0) =~= Seq::<char>::empty());
    }
    while i < n
        invariant
            n == p@.len(),
            p@ == pattern@,
            h@ == hostname@,
            i <= n,
            split_on(p@.subrange(0, i as int), ';').len() >= 1,
            split_on(p@.subrange(0, i as int), ';').last() == cur@,
            found == exists|k: int|
                0 <= k < split_on(p@.subrange(0, i as int), ';').len() - 1 && piece_matches(
                    #[trigger] split_on(p@.subrange(0, i as int), ';')[k],
                    h@,
                ),
        decreases n - i,
    {
        let ghost prev = split_on(p@.subrange(0, i as int), ';');
        let ghost s1 = p@.subrange(0, i + 1);
        proof {
            assert(s1.drop_last() =~= p@.subrange(0, i as int));
            assert(s1.last() == p@[i as int]);
        }
        let c = p[i];
        if c == ';' {
            let m = piece_matches_chars(&cur, &h);
            let ghost next = split_on(s1, ';');
            proof {
                assert(next == prev.push(Seq::<char>::empty()));
                assert(next[prev.len() - 1] == cur@);
                if found {
                    let k = choose|k: int| 0 <= k < prev.len() - 1 && piece_matches(#[trigger] prev[k], h@);
                    assert(next[k] == prev[k]);
                }
                if found || m {
                    assert(exists|k: int| 0 <= k < next.len() - 1 && piece_matches(#[trigger] next[k], h@));
                } else {
                    assert forall|k: int| 0 <= k < next.len() - 1 implies !piece_matches(#[trigger] next[k], h@) by {
                        if k < prev.len() - 1 {
                            assert(next[k] == prev[k]);
                        }
                    }
                }
            }
            found = found || m;
            cur = Vec::new();
        } else {
            cur.push(c);
            proof {
                let next = split_on(s1, ';');
                assert(next == prev.update(prev.len() - 1, prev.last().push(c)));
                if found {
                    let k = choose|k: int| 0 <= k < prev.len() - 1 && piece_matches(#[trigger] prev[k], h@);
                    assert(next[k] == prev[k]);
                }
                assert forall|k: int| 0 <= k < next.len() - 1 implies next[k] == prev[k] by {}
            }
        }
        i += 1;
    }
    proof {
        assert(p@.subrange(0, n as int) =~= p@);
    }
    let m = piece_matches_chars(&cur, &h);
    proof {
        let sp = split_on(p@, ';');
        if found {
            let k = choose|k: int| 0 <= k < sp.len() - 1 && piece_matches(#[trigger] sp[k], h@);
        }
        if m {
            assert(piece_matches(sp[sp.len() - 1], h@));
        }
    }
    found || m
}

/// Whether two strings hold the same characters.
pub fn same_text(a: &str, b: &str) -> (r: bool)
    ensures
        r == (a@ == b@),
{
    let x = chars_of(a);
    let y = chars_of(b);
    if x.len() != y.len() {
        return false;
    }
    let r = range_eq(&x, 0, &y, 0, x.len());
    assert(x@.subrange(0, x@.len() as int) =~= x@);
    assert(y@.subrange(0, y@.len() as int) =~= y@);
    r
}

} // verus!
