//! Character-level text utilities the import parsers are built on:
//! conversion between strings and character vectors, whitespace trimming,
//! splitting on separators, and substring search.
use vstd::prelude::*;

verus! {

/// The Unicode whitespace code points, as `str::trim` sees them.
pub open spec fn is_ws(c: char) -> bool {
    let n = c as u32;
    n == 0x9 || n == 0xA || n == 0xB || n == 0xC || n == 0xD || n == 0x20 || n == 0x85
        || n == 0xA0 || n == 0x1680 || (0x2000 <= n && n <= 0x200A) || n == 0x2028 || n == 0x2029
        || n == 0x202F || n == 0x205F || n == 0x3000
}

/// Whether `c` is a whitespace character; the executable twin of [`is_ws`].
pub fn is_ws_char(c: char) -> (r: bool)
    ensures
        r == is_ws(c),
{
    let n = c as u32;
    n == 0x9 || n == 0xA || n == 0xB || n == 0xC || n == 0xD || n == 0x20 || n == 0x85
        || n == 0xA0 || n == 0x1680 || (0x2000 <= n && n <= 0x200A) || n == 0x2028 || n == 0x2029
        || n == 0x202F || n == 0x205F || n == 0x3000
}

/// The characters of `s`, in order, as a vector.
pub fn chars_vec(s: &str) -> (r: Vec<char>)
    ensures
        r@ == s@,
{
    let mut r: Vec<char> = Vec::new();
    for c in it: s.chars()
        invariant
            it.seq() == s@,
            r@ == it.seq().take(it.index()),
    {
        r.push(c);
    }
    assert(r@ =~= s@);
    r
}

/// Relies on std's `FromIterator<char> for String`: collecting characters
/// yields the string of exactly those characters, in order.
#[verifier::external_body]
pub fn string_of_chars(v: &Vec<char>) -> (r: String)
    ensures
        r@ == v@,
{
    v.iter().collect()
}

/// The subrange `v[from..to]`, copied out.
pub fn subvec(v: &Vec<char>, from: usize, to: usize) -> (r: Vec<char>)
    requires
        from <= to <= v.len(),
    ensures
        r@ == v@.subrange(from as int, to as int),
{
    let mut r: Vec<char> = Vec::new();
    let mut i: usize = from;
    while i < to
        invariant
            from <= i <= to <= v.len(),
            r@ == v@.subrange(from as int, i as int),
        decreases to - i,
    {
        r.push(v[i]);
        i = i + 1;
        assert(r@ =~= v@.subrange(from as int, i as int));
    }
    r
}

/// `s` with leading whitespace removed.
pub open spec fn spec_trim_start(s: Seq<char>) -> Seq<char>
    decreases s.len(),
{
    if s.len() == 0 {
        s
    } else if is_ws(s[0]) {
        spec_trim_start(s.drop_first())
    } else {
        s
    }
}

/// `s` with trailing whitespace removed.
pub open spec fn spec_trim_end(s: Seq<char>) -> Seq<char>
    decreases s.len(),
{
    if s.len() == 0 {
        s
    } else if is_ws(s[s.len() - 1]) {
        spec_trim_end(s.drop_last())
    } else {
        s
    }
}

/// `s` with surrounding whitespace removed, as `str::trim` leaves it.
pub open spec fn spec_trim(s: Seq<char>) -> Seq<char> {
    spec_trim_end(spec_trim_start(s))
}

proof fn lemma_trim_start_skip(s: Seq<char>, i: int)
    requires
        0 <= i <= s.len(),
        forall|j: int| 0 <= j < i ==> is_ws(s[j]),
    ensures
        spec_trim_start(s) == spec_trim_start(s.skip(i)),
    decreases i,
{
    if i > 0 {
        assert(is_ws(s[0]));
        assert(s.drop_first() =~= s.skip(1));
        lemma_trim_start_skip(s.skip(1), i - 1);
        assert(s.skip(1).skip(i - 1) =~= s.skip(i));
    } else {
        assert(s.skip(0) =~= s);
    }
}

proof fn lemma_trim_end_take(s: Seq<char>, i: int)
    requires
        0 <= i <= s.len(),
        forall|j: int| i <= j < s.len() ==> is_ws(s[j]),
    ensures
        spec_trim_end(s) == spec_trim_end(s.take(i)),
    decreases s.len() - i,
{
    if i < s.len() {
        assert(is_ws(s[s.len() - 1]));
        assert(s.drop_last() =~= s.take(s.len() - 1));
        lemma_trim_end_take(s.take(s.len() - 1), i);
        assert(s.take(s.len() - 1).take(i) =~= s.take(i));
    } else {
        assert(s.take(i) =~= s);
    }
}

proof fn lemma_trim_start_no_ws(s: Seq<char>)
    ensures
        spec_trim_start(s).len() > 0 ==> !is_ws(spec_trim_start(s)[0]),
    decreases s.len(),
{
    if s.len() > 0 && is_ws(s[0]) {
        lemma_trim_start_no_ws(s.drop_first());
    }
}

/// Trimming is idempotent: a trimmed sequence trims to itself.
pub proof fn lemma_trim_idempotent(s: Seq<char>)
    ensures
        spec_trim(spec_trim(s)) == spec_trim(s),
{
    let x = spec_trim_start(s);
    let t = spec_trim_end(x);
    lemma_trim_start_no_ws(s);
    lemma_trim_end_keeps_first(x);
    if t.len() > 0 {
        assert(t[0] == x[0]);
        assert(!is_ws(t[0]));
        assert(spec_trim_start(t) == t);
        assert(!is_ws(t[t.len() - 1]));
        assert(spec_trim_end(t) == t);
    } else {
        assert(t =~= Seq::<char>::empty());
        assert(spec_trim_start(t) == t);
        assert(spec_trim_end(t) == t);
    }
}

proof fn lemma_trim_end_keeps_first(s: Seq<char>)
    ensures
        spec_trim_end(s).len() > 0 ==> !is_ws(spec_trim_end(s)[spec_trim_end(s).len() - 1]),
        spec_trim_end(s).len() > 0 ==> spec_trim_end(s)[0] == s[0],
    decreases s.len(),
{
    if s.len() > 0 && is_ws(s[s.len() - 1]) {
        lemma_trim_end_keeps_first(s.drop_last());
    }
}

/// `v` with surrounding whitespace removed; the executable twin of
/// [`spec_trim`].
pub fn trim_vec(v: &Vec<char>) -> (r: Vec<char>)
    ensures
        r@ == spec_trim(v@),
{
    let mut start: usize = 0;
    while start < v.len() && is_ws_char(v[start])
        invariant
            0 <= start <= v.len(),
            forall|j: int| 0 <= j < start ==> is_ws(v@[j]),
        decreases v.len() - start,
    {
        start = start + 1;
    }
    proof {
        lemma_trim_start_skip(v@, start as int);
    }
    // v@.skip(start) begins with a non-whitespace character (or is empty),
    // so trim_start leaves it unchanged.
    assert(spec_trim_start(v@) == v@.skip(start as int));

    let ghost t = v@.skip(start as int);
    let mut end: usize = v.len();
    while end > start && is_ws_char(v[end - 1])
        invariant
            start <= end <= v.len(),
            forall|j: int| end <= j < v.len() ==> is_ws(v@[j]),
        decreases end,
    {
        end = end - 1;
    }
    proof {
        assert(forall|j: int| (end - start) <= j < t.len() ==> is_ws(t[j]));
        lemma_trim_end_take(t, end - start);
        assert(t.take(end - start) =~= v@.subrange(start as int, end as int));
        if end > start {
            assert(!is_ws(t.take(end - start)[end - start - 1]));
            assert(spec_trim_end(t.take(end - start)) == t.take(end - start));
        } else {
            assert(t.take(0) =~= Seq::<char>::empty());
            assert(spec_trim_end(t.take(0)) == t.take(0));
        }
    }
    subvec(v, start, end)
}

/// Trim each piece and keep the non-empty ones.
pub open spec fn spec_nonempty_trimmed(pieces: Seq<Seq<char>>) -> Seq<Seq<char>>
    decreases pieces.len(),
{
    if pieces.len() == 0 {
        Seq::empty()
    } else {
        spec_nonempty_trimmed(pieces.drop_last()) + {
            let t = spec_trim(pieces.last());
            if t.len() == 0 {
                Seq::empty()
            } else {
                seq![t]
            }
        }
    }
}

/// The deep view of a character vector is its plain view.
pub proof fn lemma_chars_deep(v: Vec<char>)
    ensures
        v.deep_view() == v@,
{
    assert(v.deep_view() =~= v@);
}

/// Indexing the deep view of a vector of character vectors reads the
/// element's plain view.
pub proof fn lemma_lines_deep(l: Vec<Vec<char>>, i: int)
    requires
        0 <= i < l@.len(),
    ensures
        l.deep_view()[i] == l@[i]@,
{
    assert(l.deep_view()[i] == l@[i].deep_view());
    lemma_chars_deep(l@[i]);
}

/// The separator families the parsers split on.
#[derive(Debug, Clone, Copy, PartialEq, Eq, Structural)]
pub enum SepKind {
    /// Newline only.
    Line,
    /// Newline or semicolon: the row separators of delimited text.
    Row,
    /// Vertical bar: the column separator of a pipe table.
    Pipe,
    /// The unit-separator control character dividing note fields.
    Field,
    /// Comma or whitespace: the separators of a typed tag list.
    Tag,
}

/// Whether `c` separates pieces under kind `k`.
pub open spec fn sep_matches(k: SepKind, c: char) -> bool {
    match k {
        SepKind::Line => c == '\n',
        SepKind::Row => c == '\n' || c == ';',
        SepKind::Pipe => c == '|',
        SepKind::Field => c == '\u{1f}',
        SepKind::Tag => c == ',' || is_ws(c),
    }
}

/// Executable twin of [`sep_matches`].
pub fn sep_matches_char(k: SepKind, c: char) -> (r: bool)
    ensures
        r == sep_matches(k, c),
{
    match k {
        SepKind::Line => c == '\n',
        SepKind::Row => c == '\n' || c == ';',
        SepKind::Pipe => c == '|',
        SepKind::Field => c == '\u{1f}',
        SepKind::Tag => c == ',' || is_ws_char(c),
    }
}

/// `s` split at every separator of kind `k`. Always yields at least one
/// piece; a separator at either edge, or two adjacent ones, yield empty
/// pieces, as `str::split` does.
pub open spec fn spec_split(k: SepKind, s: Seq<char>) -> Seq<Seq<char>>
    decreases s.len(),
{
    if s.len() == 0 {
        seq![Seq::<char>::empty()]
    } else if sep_matches(k, s[0]) {
        seq![Seq::<char>::empty()] + spec_split(k, s.drop_first())
    } else {
        let r = spec_split(k, s.drop_first());
        seq![seq![s[0]] + r[0]] + r.drop_first()
    }
}

pub proof fn lemma_split_nonempty(k: SepKind, s: Seq<char>)
    ensures
        spec_split(k, s).len() >= 1,
    decreases s.len(),
{
    if s.len() > 0 {
        lemma_split_nonempty(k, s.drop_first());
    }
}

/// How appending one character extends a split: a separator opens a new
/// empty piece, any other character extends the last piece.
proof fn lemma_split_push(k: SepKind, s: Seq<char>, c: char)
    ensures
        sep_matches(k, c) ==> spec_split(k, s.push(c)) =~~= spec_split(k, s).push(
            Seq::<char>::empty(),
        ),
        !sep_matches(k, c) ==> spec_split(k, s.push(c)) =~~= spec_split(k, s).update(
            spec_split(k, s).len() - 1,
            spec_split(k, s).last().push(c),
        ),
    decreases s.len(),
{
    lemma_split_nonempty(k, s);
    if s.len() == 0 {
        assert(s =~= Seq::<char>::empty());
        assert(s.push(c).len() == 1);
        assert(s.push(c)[0] == c);
        assert(s.push(c).drop_first() =~= Seq::<char>::empty());
        if sep_matches(k, c) {
            assert(spec_split(k, s.push(c)) == seq![Seq::<char>::empty()] + spec_split(
                k,
                Seq::<char>::empty(),
            ));
            assert(spec_split(k, s.push(c)) =~~= spec_split(k, s).push(Seq::<char>::empty()));
        } else {
            let r = spec_split(k, Seq::<char>::empty());
            assert(spec_split(k, s.push(c)) == seq![seq![c] + r[0]] + r.drop_first());
            assert(seq![c] + r[0] =~= spec_split(k, s).last().push(c));
            assert(spec_split(k, s.push(c)) =~~= spec_split(k, s).update(
                spec_split(k, s).len() - 1,
                spec_split(k, s).last().push(c),
            ));
        }
    } else {
        let t = s.drop_first();
        assert(s.push(c)[0] == s[0]);
        assert(s.push(c).drop_first() =~= t.push(c));
        lemma_split_push(k, t, c);
        lemma_split_nonempty(k, t);
        let r = spec_split(k, t);
        let rp = spec_split(k, t.push(c));
        if sep_matches(k, s[0]) {
            assert(spec_split(k, s.push(c)) == seq![Seq::<char>::empty()] + rp);
        } else {
            assert(spec_split(k, s.push(c)) == seq![seq![s[0]] + rp[0]] + rp.drop_first());
            if sep_matches(k, c) {
                assert(rp =~~= r.push(Seq::<char>::empty()));
                assert(rp[0] == r[0]);
                assert(rp.drop_first() =~~= r.drop_first().push(Seq::<char>::empty()));
            } else {
                assert(rp =~~= r.update(r.len() - 1, r.last().push(c)));
                if r.len() == 1 {
                    assert(rp[0] == r[0].push(c));
                    assert(rp.drop_first() =~~= r.drop_first());
                } else {
                    assert(rp[0] == r[0]);
                    assert(rp.drop_first() =~~= r.drop_first().update(
                        r.drop_first().len() - 1,
                        r.drop_first().last().push(c),
                    ));
                }
            }
        }
    }
}

/// The pieces of `v`, split at every separator of kind `k`; the executable
/// twin of [`spec_split`].
pub fn split_chars(v: &Vec<char>, k: SepKind) -> (r: Vec<Vec<char>>)
    ensures
        r.deep_view() == spec_split(k, v@),
{
    let mut pieces: Vec<Vec<char>> = Vec::new();
    let mut cur: Vec<char> = Vec::new();
    let mut i: usize = 0;
    while i < v.len()
        invariant
            0 <= i <= v.len(),
            spec_split(k, v@.take(i as int)) =~~= pieces.deep_view().push(cur@),
        decreases v.len() - i,
    {
        let c = v[i];
        proof {
            assert(v@.take(i + 1) =~= v@.take(i as int).push(v@[i as int]));
            lemma_split_push(k, v@.take(i as int), v@[i as int]);
            lemma_split_nonempty(k, v@.take(i as int));
        }
        if sep_matches_char(k, c) {
            pieces.push(cur);
            cur = Vec::new();
            assert(pieces.deep_view().push(cur@) =~~= spec_split(k, v@.take(i + 1)));
        } else {
            cur.push(c);
            assert(pieces.deep_view().push(cur@) =~~= spec_split(k, v@.take(i + 1)));
        }
        i = i + 1;
    }
    assert(v@.take(v.len() as int) =~= v@);
    pieces.push(cur);
    assert(pieces.deep_view() =~~= spec_split(k, v@));
    pieces
}

/// Whether `pat` occurs in `s` starting at position `i`.
pub open spec fn spec_matches_at(s: Seq<char>, pat: Seq<char>, i: int) -> bool {
    0 <= i && i + pat.len() <= s.len() && s.subrange(i, i + pat.len()) == pat
}

/// The position of the first occurrence of `pat` in `s`, if any.
pub open spec fn spec_find(s: Seq<char>, pat: Seq<char>) -> Option<int>
    decreases s.len(),
{
    if pat.len() > s.len() {
        None
    } else if s.take(pat.len() as int) == pat {
        Some(0)
    } else if s.len() == 0 {
        None
    } else {
        match spec_find(s.drop_first(), pat) {
            Some(i) => Some(i + 1),
            None => None,
        }
    }
}

/// [`spec_find`] returns exactly the least position at which `pat` occurs.
pub proof fn lemma_find_spec(s: Seq<char>, pat: Seq<char>)
    ensures
        match spec_find(s, pat) {
            Some(i) => spec_matches_at(s, pat, i) && forall|j: int|
                0 <= j < i ==> !spec_matches_at(s, pat, j),
            None => forall|j: int| !spec_matches_at(s, pat, j),
        },
    decreases s.len(),
{
    if pat.len() > s.len() {
        assert(forall|j: int| !spec_matches_at(s, pat, j));
    } else if s.take(pat.len() as int) == pat {
        assert(s.subrange(0, pat.len() as int) =~= s.take(pat.len() as int));
    } else if s.len() == 0 {
        assert(s.take(pat.len() as int) =~= pat);
    } else {
        let t = s.drop_first();
        lemma_find_spec(t, pat);
        assert(forall|j: int|
            0 <= j ==> (spec_matches_at(s, pat, j + 1) <==> #[trigger] spec_matches_at(
                t,
                pat,
                j,
            ))) by {
            assert forall|j: int| 0 <= j implies (spec_matches_at(s, pat, j + 1)
                <==> spec_matches_at(t, pat, j)) by {
                assert(t.len() == s.len() - 1);
                if j + pat.len() <= t.len() {
                    assert(t.subrange(j, j + pat.len()) =~= s.subrange(j + 1, j + 1 + pat.len()));
                }
            }
        }
        assert(!spec_matches_at(s, pat, 0)) by {
            if spec_matches_at(s, pat, 0) {
                assert(s.subrange(0, pat.len() as int) =~= s.take(pat.len() as int));
            }
        }
        match spec_find(t, pat) {
            Some(i) => {
                assert(spec_find(s, pat) == Some(i + 1));
                assert(spec_matches_at(t, pat, i));
                assert(spec_matches_at(s, pat, i + 1));
                assert forall|j: int| 0 <= j < i + 1 implies !spec_matches_at(s, pat, j) by {
                    if j >= 1 {
                        assert(!spec_matches_at(t, pat, j - 1));
                    }
                }
            },
            None => {
                assert forall|j: int| !spec_matches_at(s, pat, j) by {
                    if j >= 1 {
                        assert(!spec_matches_at(t, pat, j - 1));
                    }
                }
            },
        }
    }
}

/// Whether `pat` occurs at position `i` of `v`; executable twin of
/// [`spec_matches_at`].
pub fn matches_at(v: &Vec<char>, pat: &Vec<char>, i: usize) -> (r: bool)
    requires
        i + pat.len() <= v.len(),
    ensures
        r == spec_matches_at(v@, pat@, i as int),
{
    let mut kk: usize = 0;
    while kk < pat.len()
        invariant
            0 <= kk <= pat.len(),
            i + pat.len() <= v.len(),
            forall|t: int| 0 <= t < kk ==> v@[i + t] == pat@[t],
        decreases pat.len() - kk,
    {
        if v[i + kk] != pat[kk] {
            assert(!spec_matches_at(v@, pat@, i as int)) by {
                if spec_matches_at(v@, pat@, i as int) {
                    assert(v@.subrange(i as int, i + pat@.len())[kk as int] == pat@[kk as int]);
                }
            }
            return false;
        }
        kk = kk + 1;
    }
    assert(v@.subrange(i as int, i + pat@.len()) =~= pat@);
    true
}

/// The position of the first occurrence of `pat` in `v`, if any; the
/// executable twin of [`spec_find`].
pub fn find_sub(v: &Vec<char>, pat: &Vec<char>) -> (r: Option<usize>)
    ensures
        match r {
            Some(i) => spec_find(v@, pat@) == Some(i as int),
            None => spec_find(v@, pat@) is None,
        },
{
    if pat.len() > v.len() {
        proof {
            lemma_find_spec(v@, pat@);
        }
        return None;
    }
    if pat.len() == 0 {
        proof {
            assert(pat@ =~= Seq::<char>::empty());
            assert(v@.take(0) =~= pat@);
        }
        return Some(0);
    }
    let bound: usize = v.len() - pat.len();
    let mut i: usize = 0;
    while i <= bound
        invariant
            0 <= i <= bound + 1,
            1 <= pat.len() <= v.len(),
            bound == v.len() - pat.len(),
            forall|j: int| 0 <= j < i ==> !spec_matches_at(v@, pat@, j),
        decreases bound + 1 - i,
    {
        if matches_at(v, pat, i) {
            proof {
                lemma_find_spec(v@, pat@);
                match spec_find(v@, pat@) {
                    Some(x) => {
                        if x < i {
                            assert(!spec_matches_at(v@, pat@, x));
                        } else if x > i {
                            assert(!spec_matches_at(v@, pat@, i as int));
                        }
                    },
                    None => {
                        assert(!spec_matches_at(v@, pat@, i as int));
                    },
                }
            }
            return Some(i);
        }
        i = i + 1;
    }
    proof {
        lemma_find_spec(v@, pat@);
        assert(forall|j: int| !spec_matches_at(v@, pat@, j)) by {
            assert forall|j: int| !spec_matches_at(v@, pat@, j) by {
                if 0 <= j < i {
                    assert(!spec_matches_at(v@, pat@, j));
                }
            }
        }
        if spec_find(v@, pat@) is Some {
            let x = spec_find(v@, pat@)->Some_0;
            assert(spec_matches_at(v@, pat@, x));
        }
    }
    None
}

/// Whether `a` and `b` hold the same characters.
pub fn eq_chars(a: &Vec<char>, b: &Vec<char>) -> (r: bool)
    ensures
        r == (a@ == b@),
{
    if a.len() != b.len() {
        return false;
    }
    let mut i: usize = 0;
    while i < a.len()
        invariant
            0 <= i <= a.len(),
            a.len() == b.len(),
            forall|j: int| 0 <= j < i ==> a@[j] == b@[j],
        decreases a.len() - i,
    {
        if a[i] != b[i] {
            return false;
        }
        i = i + 1;
    }
    assert(a@ =~= b@);
    true
}

/// Whether `v` starts with `pat`.
pub open spec fn spec_starts_with(s: Seq<char>, pat: Seq<char>) -> bool {
    pat.len() <= s.len() && s.take(pat.len() as int) == pat
}

/// Executable twin of [`spec_starts_with`].
pub fn starts_with(v: &Vec<char>, pat: &Vec<char>) -> (r: bool)
    ensures
        r == spec_starts_with(v@, pat@),
{
    if pat.len() > v.len() {
        return false;
    }
    let r = matches_at(v, pat, 0);
    assert(v@.subrange(0, pat@.len() as int) =~= v@.take(pat@.len() as int));
    r
}

/// Where `s` splits at the first occurrence of `pat`, both sides trimmed.
pub open spec fn spec_split_once_trimmed(s: Seq<char>, pat: Seq<char>) -> Option<
    (Seq<char>, Seq<char>),
> {
    match spec_find(s, pat) {
        Some(i) => Some((spec_trim(s.take(i)), spec_trim(s.skip(i + pat.len())))),
        None => None,
    }
}

/// Split `v` at the first occurrence of `pat`, trimming both sides; the
/// executable twin of [`spec_split_once_trimmed`].
pub fn split_once_trimmed(v: &Vec<char>, pat: &Vec<char>) -> (r: Option<(Vec<char>, Vec<char>)>)
    ensures
        match r {
            Some(p) => spec_split_once_trimmed(v@, pat@) == Some((p.0@, p.1@)),
            None => spec_split_once_trimmed(v@, pat@) is None,
        },
{
    match find_sub(v, pat) {
        Some(i) => {
            proof {
                lemma_find_spec(v@, pat@);
                assert(spec_matches_at(v@, pat@, i as int));
                assert(i + pat@.len() <= v@.len());
            }
            let n = v.len();
            let left = trim_vec(&subvec(v, 0, i));
            let right = trim_vec(&subvec(v, i + pat.len(), n));
            proof {
                assert(v@.subrange(0, i as int) =~= v@.take(i as int));
                assert(v@.subrange(i + pat@.len(), v@.len() as int) =~= v@.skip(i + pat@.len()));
            }
            Some((left, right))
        },
        None => None,
    }
}

/// `s` with every leading repetition of `pat` removed, as
/// `str::trim_start_matches` leaves it.
pub open spec fn spec_strip_prefix_all(s: Seq<char>, pat: Seq<char>) -> Seq<char>
    decreases s.len(),
{
    if pat.len() > 0 && spec_starts_with(s, pat) {
        spec_strip_prefix_all(s.skip(pat.len() as int), pat)
    } else {
        s
    }
}

/// Whether `v` ends with `pat`.
pub open spec fn spec_ends_with(s: Seq<char>, pat: Seq<char>) -> bool {
    pat.len() <= s.len() && s.skip(s.len() - pat.len()) == pat
}

/// `s` with every trailing repetition of `pat` removed, as
/// `str::trim_end_matches` leaves it.
pub open spec fn spec_strip_suffix_all(s: Seq<char>, pat: Seq<char>) -> Seq<char>
    decreases s.len(),
{
    if pat.len() > 0 && spec_ends_with(s, pat) {
        spec_strip_suffix_all(s.take(s.len() - pat.len()), pat)
    } else {
        s
    }
}

/// Executable twin of [`spec_strip_prefix_all`].
pub fn strip_prefix_all(v: &Vec<char>, pat: &Vec<char>) -> (r: Vec<char>)
    requires
        pat.len() > 0,
    ensures
        r@ == spec_strip_prefix_all(v@, pat@),
{
    let mut start: usize = 0;
    assert(v@.skip(0) =~= v@);
    while pat.len() <= v.len() - start && matches_at(v, pat, start)
        invariant
            0 <= start <= v.len(),
            pat.len() > 0,
            spec_strip_prefix_all(v@, pat@) == spec_strip_prefix_all(v@.skip(start as int), pat@),
        decreases v.len() - start,
    {
        proof {
            let t = v@.skip(start as int);
            assert(t.subrange(0, pat@.len() as int) =~= v@.subrange(
                start as int,
                start + pat@.len(),
            ));
            assert(spec_starts_with(t, pat@));
            assert(t.skip(pat@.len() as int) =~= v@.skip(start + pat@.len()));
        }
        start = start + pat.len();
    }
    proof {
        let t = v@.skip(start as int);
        if pat@.len() <= t.len() {
            assert(t.subrange(0, pat@.len() as int) =~= v@.subrange(
                start as int,
                start + pat@.len(),
            ));
        }
        assert(!spec_starts_with(t, pat@));
    }
    let r = subvec(v, start, v.len());
    assert(r@ =~= v@.skip(start as int));
    r
}

/// Executable twin of [`spec_strip_suffix_all`].
pub fn strip_suffix_all(v: &Vec<char>, pat: &Vec<char>) -> (r: Vec<char>)
    requires
        pat.len() > 0,
    ensures
        r@ == spec_strip_suffix_all(v@, pat@),
{
    let mut end: usize = v.len();
    assert(v@.take(v@.len() as int) =~= v@);
    while end >= pat.len() && matches_at_end(v, pat, end)
        invariant
            0 <= end <= v.len(),
            pat.len() > 0,
            spec_strip_suffix_all(v@, pat@) == spec_strip_suffix_all(v@.take(end as int), pat@),
        decreases end,
    {
        proof {
            let t = v@.take(end as int);
            assert(t.skip(t.len() - pat@.len()) =~= v@.subrange(end - pat@.len(), end as int));
            assert(spec_ends_with(t, pat@));
            assert(t.take(t.len() - pat@.len()) =~= v@.take(end - pat@.len()));
        }
        end = end - pat.len();
    }
    proof {
        let t = v@.take(end as int);
        if pat@.len() <= t.len() {
            assert(t.skip(t.len() - pat@.len()) =~= v@.subrange(end - pat@.len(), end as int));
        }
        assert(!spec_ends_with(t, pat@));
    }
    let r = subvec(v, 0, end);
    assert(r@ =~= v@.take(end as int));
    r
}

/// Whether `pat` occupies the positions just before `end` in `v`.
fn matches_at_end(v: &Vec<char>, pat: &Vec<char>, end: usize) -> (r: bool)
    requires
        pat.len() <= end <= v.len(),
    ensures
        r == (v@.subrange(end - pat@.len(), end as int) == pat@),
{
    let r = matches_at(v, pat, end - pat.len());
    proof {
        assert(v@.subrange(end - pat@.len(), end as int) =~= v@.subrange(
            end - pat@.len(),
            (end - pat@.len()) + pat@.len(),
        ));
    }
    r
}

/// Case folding of one ASCII letter pair: `x` and `y` are the same letter up
/// to ASCII case.
pub open spec fn chars_eq_nocase(x: char, y: char) -> bool {
    let a = x as u32;
    let b = y as u32;
    a == b || (0x41 <= a && a <= 0x5A && b == a + 0x20) || (0x41 <= b && b <= 0x5A && a == b
        + 0x20)
}

/// Whether `s` and `t` are equal up to ASCII case.
pub open spec fn spec_eq_ignore_ascii_case(s: Seq<char>, t: Seq<char>) -> bool {
    s.len() == t.len() && forall|i: int| 0 <= i < s.len() ==> chars_eq_nocase(s[i], t[i])
}

/// Executable twin of [`spec_eq_ignore_ascii_case`].
pub fn eq_ignore_ascii_case(v: &Vec<char>, w: &Vec<char>) -> (r: bool)
    ensures
        r == spec_eq_ignore_ascii_case(v@, w@),
{
    if v.len() != w.len() {
        return false;
    }
    let mut i: usize = 0;
    while i < v.len()
        invariant
            0 <= i <= v.len(),
            v.len() == w.len(),
            forall|j: int| 0 <= j < i ==> chars_eq_nocase(v@[j], w@[j]),
        decreases v.len() - i,
    {
        let a = v[i] as u32;
        let b = w[i] as u32;
        let same = a == b || (0x41 <= a && a <= 0x5A && b == a + 0x20) || (0x41 <= b && b <= 0x5A
            && a == b + 0x20);
        if !same {
            return false;
        }
        i = i + 1;
    }
    true
}

/// `s` with every CR-LF pair replaced by a lone LF.
pub open spec fn spec_normalize_crlf(s: Seq<char>) -> Seq<char>
    decreases s.len(),
{
    if s.len() >= 2 && s[0] == '\r' && s[1] == '\n' {
        seq!['\n'] + spec_normalize_crlf(s.skip(2))
    } else if s.len() == 0 {
        s
    } else {
        seq![s[0]] + spec_normalize_crlf(s.drop_first())
    }
}

/// Executable twin of [`spec_normalize_crlf`].
pub fn normalize_crlf(v: &Vec<char>) -> (r: Vec<char>)
    ensures
        r@ == spec_normalize_crlf(v@),
{
    let mut out: Vec<char> = Vec::new();
    let mut i: usize = 0;
    assert(v@.skip(0) =~= v@);
    assert(spec_normalize_crlf(v@) =~= out@ + spec_normalize_crlf(v@.skip(0)));
    while i < v.len()
        invariant
            0 <= i <= v.len(),
            spec_normalize_crlf(v@) =~= out@ + spec_normalize_crlf(v@.skip(i as int)),
        decreases v.len() - i,
    {
        if v[i] == '\r' && i + 1 < v.len() && v[i + 1] == '\n' {
            proof {
                assert(v@.skip(i as int)[0] == '\r');
                assert(v@.skip(i as int)[1] == '\n');
                assert(v@.skip(i as int).skip(2) =~= v@.skip(i + 2));
            }
            out.push('\n');
            i = i + 2;
        } else {
            proof {
                assert(v@.skip(i as int)[0] == v@[i as int]);
                assert(v@.skip(i as int).drop_first() =~= v@.skip(i + 1));
            }
            out.push(v[i]);
            i = i + 1;
        }
    }
    assert(v@.skip(v.len() as int) =~= Seq::<char>::empty());
    assert(out@ + Seq::<char>::empty() =~= out@);
    out
}

} // verus!
