use vstd::prelude::*;

verus! {

broadcast use vstd::string::group_string_axioms;

/// The characters of `s`, in order.
pub fn chars_of(s: &str) -> (res: Vec<char>)
    ensures
        res@ == s@,
{
    let mut res: Vec<char> = Vec::new();
    for c in it: s.chars()
        invariant
            res@ == it.seq().take(it.index() as int),
            it.seq() == s@,
    {
        res.push(c);
    }
    res
}

/// `String::push`: appends one character.
#[verifier::external_body]
fn string_push(s: &mut String, c: char)
    ensures
        final(s)@ == old(s)@.push(c),
{
    s.push(c)
}

/// `str` equality: the same characters.
pub(crate) fn str_eq(a: &str, b: &str) -> (res: bool)
    ensures
        res == (a@ == b@),
{
    let x = chars_of(a);
    let y = chars_of(b);
    if x.len() != y.len() {
        return false;
    }
    for i in 0..x.len()
        invariant
            x.len() == y.len(),
            x@ == a@,
            y@ == b@,
            forall|j: int| 0 <= j < i ==> x@[j] == y@[j],
    {
        if x[i] != y[i] {
            return false;
        }
    }
    assert(x@ =~= y@);
    true
}

/// The string whose characters are `v`.
pub fn string_of(v: &Vec<char>) -> (res: String)
    ensures
        res@ == v@,
{
    let mut res = String::new();
    for i in 0..v.len()
        invariant
            res@ == v@.take(i as int),
    {
        string_push(&mut res, v[i]);
        assert(v@.take(i + 1) =~= v@.take(i as int).push(v@[i as int]));
    }
    assert(v@.take(v.len() as int) =~= v@);
    res
}

/// A copy of `v[from..to]`.
pub fn slice_of(v: &Vec<char>, from: usize, to: usize) -> (res: Vec<char>)
    requires
        from <= to <= v.len(),
    ensures
        res@ == v@.subrange(from as int, to as int),
{
    let mut res: Vec<char> = Vec::new();
    let mut i = from;
    while i < to
        invariant
            from <= i <= to <= v.len(),
            res@ == v@.subrange(from as int, i as int),
        decreases to - i,
    {
        res.push(v[i]);
        assert(v@.subrange(from as int, i + 1) =~= v@.subrange(from as int, i as int).push(
            v@[i as int],
        ));
        i += 1;
    }
    res
}

/// Appends the characters of `w` to `v`.
pub fn append_chars(v: &mut Vec<char>, w: &Vec<char>)
    ensures
        final(v)@ == old(v)@ + w@,
{
    for i in 0..w.len()
        invariant
            v@ == old(v)@ + w@.take(i as int),
    {
        v.push(w[i]);
        assert(w@.take(i + 1) =~= w@.take(i as int).push(w@[i as int]));
    }
    assert(w@.take(w.len() as int) =~= w@);
}

// ---------------------------------------------------------------------
// White space and trimming
// ---------------------------------------------------------------------

/// Unicode `White_Space`, as `char::is_whitespace` and `str::trim` use it.
pub open spec fn is_space(c: char) -> bool {
    let u = c as u32;
    ||| 0x09 <= u <= 0x0D
    ||| u == 0x20
    ||| u == 0x85
    ||| u == 0xA0
    ||| u == 0x1680
    ||| 0x2000 <= u <= 0x200A
    ||| u == 0x2028
    ||| u == 0x2029
    ||| u == 0x202F
    ||| u == 0x205F
    ||| u == 0x3000
}

pub fn char_is_space(c: char) -> (res: bool)
    ensures
        res == is_space(c),
{
    let u = c as u32;
    (0x09 <= u && u <= 0x0D) || u == 0x20 || u == 0x85 || u == 0xA0 || u == 0x1680 || (0x2000
        <= u && u <= 0x200A) || u == 0x2028 || u == 0x2029 || u == 0x202F || u == 0x205F || u
        == 0x3000
}

/// `s` without its leading white space.
pub open spec fn trim_start(s: Seq<char>) -> Seq<char>
    decreases s.len(),
{
    if s.len() > 0 && is_space(s[0]) {
        trim_start(s.drop_first())
    } else {
        s
    }
}

/// `s` without its trailing white space.
pub open spec fn trim_end(s: Seq<char>) -> Seq<char>
    decreases s.len(),
{
    if s.len() > 0 && is_space(s.last()) {
        trim_end(s.drop_last())
    } else {
        s
    }
}

/// `s` without leading and trailing white space, as `str::trim` gives it.
pub open spec fn trim(s: Seq<char>) -> Seq<char> {
    trim_end(trim_start(s))
}

pub fn trim_end_chars(v: &Vec<char>) -> (res: Vec<char>)
    ensures
        res@ == trim_end(v@),
{
    let mut j = v.len();
    assert(v@.subrange(0, j as int) =~= v@);
    while j > 0 && char_is_space(v[j - 1])
        invariant
            j <= v.len(),
            trim_end(v@) == trim_end(v@.subrange(0, j as int)),
        decreases j,
    {
        assert(v@.subrange(0, j as int).drop_last() =~= v@.subrange(0, j - 1));
        j -= 1;
    }
    slice_of(v, 0, j)
}

pub fn trim_chars(v: &Vec<char>) -> (res: Vec<char>)
    ensures
        res@ == trim(v@),
{
    let mut i: usize = 0;
    assert(v@.subrange(0, v.len() as int) =~= v@);
    while i < v.len() && char_is_space(v[i])
        invariant
            i <= v.len(),
            trim_start(v@) == trim_start(v@.subrange(i as int, v.len() as int)),
        decreases v.len() - i,
    {
        assert(v@.subrange(i as int, v.len() as int).drop_first() =~= v@.subrange(
            i + 1,
            v.len() as int,
        ));
        i += 1;
    }
    let rest = slice_of(v, i, v.len());
    trim_end_chars(&rest)
}

// ---------------------------------------------------------------------
// ASCII case
// ---------------------------------------------------------------------

pub open spec fn ascii_upper(c: char) -> char {
    if 'a' <= c <= 'z' {
        ((c as u32) - 32) as char
    } else {
        c
    }
}

pub open spec fn ascii_lower(c: char) -> char {
    if 'A' <= c <= 'Z' {
        ((c as u32) + 32) as char
    } else {
        c
    }
}

/// `str::to_ascii_uppercase`.
pub open spec fn to_upper(s: Seq<char>) -> Seq<char> {
    s.map_values(|c: char| ascii_upper(c))
}

/// `str::to_ascii_lowercase`.
pub open spec fn to_lower(s: Seq<char>) -> Seq<char> {
    s.map_values(|c: char| ascii_lower(c))
}

pub fn upper_chars(v: &Vec<char>) -> (res: Vec<char>)
    ensures
        res@ == to_upper(v@),
{
    let mut res: Vec<char> = Vec::new();
    for i in 0..v.len()
        invariant
            res@ == to_upper(v@.take(i as int)),
    {
        let c = v[i];
        let d = if 'a' <= c && c <= 'z' {
            char_from_ascii((c as u32 - 32) as u8)
        } else {
            c
        };
        res.push(d);
        assert(to_upper(v@.take(i + 1)) =~= to_upper(v@.take(i as int)).push(ascii_upper(c)));
    }
    assert(v@.take(v.len() as int) =~= v@);
    res
}

pub fn lower_chars(v: &Vec<char>) -> (res: Vec<char>)
    ensures
        res@ == to_lower(v@),
{
    let mut res: Vec<char> = Vec::new();
    for i in 0..v.len()
        invariant
            res@ == to_lower(v@.take(i as int)),
    {
        let c = v[i];
        let d = if 'A' <= c && c <= 'Z' {
            char_from_ascii((c as u32 + 32) as u8)
        } else {
            c
        };
        res.push(d);
        assert(to_lower(v@.take(i + 1)) =~= to_lower(v@.take(i as int)).push(ascii_lower(c)));
    }
    assert(v@.take(v.len() as int) =~= v@);
    res
}

/// The character with the given ASCII code.
pub fn char_from_ascii(b: u8) -> (c: char)
    requires
        b < 128,
    ensures
        c as u32 == b as u32,
{
    b as char
}


// ---------------------------------------------------------------------
// Searching
// ---------------------------------------------------------------------

/// `p` occurs in `s` at index `i`.
pub open spec fn matches_at(s: Seq<char>, p: Seq<char>, i: int) -> bool {
    0 <= i && i + p.len() <= s.len() && s.subrange(i, i + p.len()) == p
}

/// The first index at or after `i` where `p` occurs in `s`, or -1.
pub open spec fn find_from(s: Seq<char>, p: Seq<char>, i: int) -> int
    decreases s.len() + 1 - i,
{
    if i < 0 || i + p.len() > s.len() {
        -1
    } else if matches_at(s, p, i) {
        i
    } else {
        find_from(s, p, i + 1)
    }
}

/// The last index at or before `i` where `p` occurs in `s`, or -1.
pub open spec fn rfind_before(s: Seq<char>, p: Seq<char>, i: int) -> int
    decreases i + 1,
{
    if i < 0 {
        -1
    } else if matches_at(s, p, i) {
        i
    } else {
        rfind_before(s, p, i - 1)
    }
}

/// The last index where `p` occurs in `s`, or -1: `str::rfind`.
pub open spec fn rfind(s: Seq<char>, p: Seq<char>) -> int {
    rfind_before(s, p, s.len() - p.len())
}

/// `s` starts with `p`.
pub open spec fn starts_with(s: Seq<char>, p: Seq<char>) -> bool {
    p.len() <= s.len() && s.subrange(0, p.len() as int) == p
}

/// `s` ends with `p`.
pub open spec fn ends_with(s: Seq<char>, p: Seq<char>) -> bool {
    p.len() <= s.len() && s.subrange(s.len() - p.len(), s.len() as int) == p
}

/// `p` occurs in `s`: `str::contains`.
pub open spec fn contains(s: Seq<char>, p: Seq<char>) -> bool {
    find_from(s, p, 0) >= 0
}

pub proof fn lemma_find_from(s: Seq<char>, p: Seq<char>, i: int)
    requires
        0 <= i,
    ensures
        find_from(s, p, i) == -1 || (i <= find_from(s, p, i) && matches_at(
            s,
            p,
            find_from(s, p, i),
        )),
        find_from(s, p, i) == -1 ==> forall|j: int| i <= j ==> !matches_at(s, p, j),
        find_from(s, p, i) >= 0 ==> forall|j: int|
            i <= j < find_from(s, p, i) ==> !matches_at(s, p, j),
    decreases s.len() + 1 - i,
{
    if i < 0 || i + p.len() > s.len() {
    } else if !matches_at(s, p, i) {
        lemma_find_from(s, p, i + 1);
    }
}

/// Whether `p` occurs in `v` at index `i`.
pub fn matches_at_exec(v: &Vec<char>, p: &Vec<char>, i: usize) -> (res: bool)
    ensures
        res == matches_at(v@, p@, i as int),
{
    if p.len() > v.len() || i > v.len() - p.len() {
        return false;
    }
    let mut k: usize = 0;
    while k < p.len()
        invariant
            i + p.len() <= v.len(),
            k <= p.len(),
            forall|t: int| 0 <= t < k ==> v@[i + t] == p@[t],
        decreases p.len() - k,
    {
        if v[i + k] != p[k] {
            assert(v@.subrange(i as int, i + p.len())[k as int] != p@[k as int]);
            return false;
        }
        k += 1;
    }
    assert(v@.subrange(i as int, i + p.len()) =~= p@);
    true
}

/// The first index at or after `start` where `p` occurs in `v`.
pub fn find_from_exec(v: &Vec<char>, p: &Vec<char>, start: usize) -> (res: Option<usize>)
    ensures
        match res {
            Some(i) => i as int == find_from(v@, p@, start as int),
            None => find_from(v@, p@, start as int) == -1,
        },
{
    let mut i = start;
    if p.len() > v.len() {
        return None;
    }
    loop
        invariant
            start <= i,
            p.len() <= v.len(),
            find_from(v@, p@, start as int) == find_from(v@, p@, i as int),
        decreases v.len() - i,
    {
        if i > v.len() - p.len() {
            return None;
        }
        if matches_at_exec(v, p, i) {
            return Some(i);
        }
        if i == v.len() - p.len() {
            assert(find_from(v@, p@, i + 1) == -1);
            return None;
        }
        i += 1;
    }
}

/// The last index where `p` occurs in `v`: `str::rfind`.
pub fn rfind_exec(v: &Vec<char>, p: &Vec<char>) -> (res: Option<usize>)
    ensures
        match res {
            Some(i) => i as int == rfind(v@, p@),
            None => rfind(v@, p@) == -1,
        },
{
    if p.len() > v.len() {
        return None;
    }
    let mut i = v.len() - p.len();
    loop
        invariant
            i <= v.len() - p.len(),
            p.len() <= v.len(),
            rfind(v@, p@) == rfind_before(v@, p@, i as int),
        decreases i,
    {
        if matches_at_exec(v, p, i) {
            return Some(i);
        }
        if i == 0 {
            assert(rfind_before(v@, p@, -1) == -1);
            return None;
        }
        i -= 1;
    }
}

pub fn starts_with_exec(v: &Vec<char>, p: &Vec<char>) -> (res: bool)
    ensures
        res == starts_with(v@, p@),
{
    matches_at_exec(v, p, 0)
}

pub fn ends_with_exec(v: &Vec<char>, p: &Vec<char>) -> (res: bool)
    ensures
        res == ends_with(v@, p@),
{
    if p.len() > v.len() {
        false
    } else {
        matches_at_exec(v, p, v.len() - p.len())
    }
}

pub fn contains_exec(v: &Vec<char>, p: &Vec<char>) -> (res: bool)
    ensures
        res == contains(v@, p@),
{
    proof {
        lemma_find_from(v@, p@, 0);
    }
    find_from_exec(v, p, 0).is_some()
}


// ---------------------------------------------------------------------
// Splitting, joining and replacing
// ---------------------------------------------------------------------

/// The views of a sequence of character vectors.
pub open spec fn views(v: Seq<Vec<char>>) -> Seq<Seq<char>> {
    v.map_values(|x: Vec<char>| x@)
}

/// The pieces of `s[i..]` between the occurrences of the non-empty `p`:
/// `str::split` with a string pattern.
pub open spec fn split_from(s: Seq<char>, p: Seq<char>, i: int) -> Seq<Seq<char>>
    decreases s.len() + 1 - i,
{
    if p.len() == 0 || i < 0 || i > s.len() {
        seq![]
    } else {
        let f = find_from(s, p, i);
        if f < 0 {
            seq![s.subrange(i, s.len() as int)]
        } else {
            proof {
                lemma_find_from(s, p, i);
            }
            seq![s.subrange(i, f)] + split_from(s, p, f + p.len())
        }
    }
}

pub open spec fn split(s: Seq<char>, p: Seq<char>) -> Seq<Seq<char>> {
    split_from(s, p, 0)
}

pub fn split_exec(v: &Vec<char>, p: &Vec<char>) -> (res: Vec<Vec<char>>)
    requires
        p.len() > 0,
    ensures
        views(res@) == split(v@, p@),
{
    let mut res: Vec<Vec<char>> = Vec::new();
    let mut start: usize = 0;
    loop
        invariant
            p.len() > 0,
            start <= v.len(),
            views(res@) + split_from(v@, p@, start as int) == split(v@, p@),
        decreases v.len() + 1 - start,
    {
        proof {
            lemma_find_from(v@, p@, start as int);
        }
        match find_from_exec(v, p, start) {
            None => {
                let piece = slice_of(v, start, v.len());
                let ghost old_res = res@;
                res.push(piece);
                assert(views(res@) =~= views(old_res).push(piece@));
                assert(views(old_res) + split_from(v@, p@, start as int) =~= views(res@));
                return res;
            },
            Some(f) => {
                let piece = slice_of(v, start, f);
                let ghost old_res = res@;
                res.push(piece);
                assert(views(res@) =~= views(old_res).push(piece@));
                assert(views(old_res) + split_from(v@, p@, start as int) =~= views(res@)
                    + split_from(v@, p@, f + p.len()));
                start = f + p.len();
            },
        }
    }
}

/// `s` with every occurrence of the empty pattern replaced by `r`.
pub open spec fn replace_empty(s: Seq<char>, r: Seq<char>) -> Seq<char>
    decreases s.len(),
{
    if s.len() == 0 {
        r
    } else {
        r + seq![s[0]] + replace_empty(s.drop_first(), r)
    }
}

/// `s[i..]` with the occurrences of the non-empty `p` replaced by `r`.
pub open spec fn replace_from(s: Seq<char>, p: Seq<char>, r: Seq<char>, i: int) -> Seq<char>
    decreases s.len() + 1 - i,
{
    if p.len() == 0 || i < 0 || i > s.len() {
        seq![]
    } else {
        let f = find_from(s, p, i);
        if f < 0 {
            s.subrange(i, s.len() as int)
        } else {
            proof {
                lemma_find_from(s, p, i);
            }
            s.subrange(i, f) + r + replace_from(s, p, r, f + p.len())
        }
    }
}

/// `str::replace`: every non-overlapping occurrence of `p`, from the left,
/// replaced by `r`.
pub open spec fn replace(s: Seq<char>, p: Seq<char>, r: Seq<char>) -> Seq<char> {
    if p.len() == 0 {
        replace_empty(s, r)
    } else {
        replace_from(s, p, r, 0)
    }
}

proof fn lemma_join_prepend(a: Seq<char>, rest: Seq<Seq<char>>, sep: Seq<char>)
    requires
        rest.len() >= 1,
    ensures
        join(seq![a] + rest, sep) == a + sep + join(rest, sep),
    decreases rest.len(),
{
    let t = seq![a] + rest;
    if rest.len() == 1 {
        assert(t.drop_last() =~= seq![a]);
        assert(t.last() == rest[0]);
        assert(join(seq![a], sep) == a);
        assert(join(rest, sep) == rest[0]);
        assert(join(t, sep) =~= a + sep + join(rest, sep));
    } else {
        lemma_join_prepend(a, rest.drop_last(), sep);
        assert(t.drop_last() =~= seq![a] + rest.drop_last());
        assert(join(t, sep) =~= a + sep + join(rest, sep));
    }
}

proof fn lemma_split_from_nonempty(s: Seq<char>, p: Seq<char>, i: int)
    requires
        p.len() > 0,
        0 <= i <= s.len(),
    ensures
        split_from(s, p, i).len() >= 1,
    decreases s.len() + 1 - i,
{
    lemma_find_from(s, p, i);
    let f = find_from(s, p, i);
    if f >= 0 {
        lemma_split_from_nonempty(s, p, f + p.len());
    }
}

proof fn lemma_replace_from_is_join(s: Seq<char>, p: Seq<char>, r: Seq<char>, i: int)
    requires
        p.len() > 0,
        0 <= i <= s.len(),
    ensures
        replace_from(s, p, r, i) == join(split_from(s, p, i), r),
    decreases s.len() + 1 - i,
{
    lemma_find_from(s, p, i);
    let f = find_from(s, p, i);
    if f >= 0 {
        lemma_replace_from_is_join(s, p, r, f + p.len());
        lemma_split_from_nonempty(s, p, f + p.len());
        lemma_join_prepend(s.subrange(i, f), split_from(s, p, f + p.len()), r);
        assert(replace_from(s, p, r, i) =~= join(split_from(s, p, i), r));
    }
}

/// Replacing a non-empty pattern replaces every occurrence, not only the
/// first: the result is the pieces between the occurrences (as `split`
/// gives them) joined with the replacement, so that a pattern named twice
/// is replaced twice.
pub proof fn law_replace_is_join_of_split(s: Seq<char>, p: Seq<char>, r: Seq<char>)
    requires
        p.len() > 0,
    ensures
        replace(s, p, r) == join(split(s, p), r),
{
    lemma_replace_from_is_join(s, p, r, 0);
}

/// Where the pattern occurs twice, with no occurrence in the text around
/// and between them, both occurrences are replaced.
pub proof fn law_replace_both_occurrences(
    a: Seq<char>,
    b: Seq<char>,
    c: Seq<char>,
    p: Seq<char>,
    r: Seq<char>,
)
    requires
        p.len() > 0,
        forall|i: int| !matches_at(a + p + b + p + c, p, i) || i == a.len() || i == a.len()
            + p.len() + b.len(),
    ensures
        replace(a + p + b + p + c, p, r) == a + r + b + r + c,
{
    let s = a + p + b + p + c;
    let i1 = a.len() as int;
    let i2: int = (a.len() + p.len() + b.len()) as int;
    let e: int = i2 + p.len();
    assert(s.subrange(i1, i1 + p.len()) =~= p);
    assert(s.subrange(i2, i2 + p.len()) =~= p);
    assert(matches_at(s, p, i1));
    assert(matches_at(s, p, i2));
    lemma_find_from(s, p, 0);
    lemma_find_from(s, p, i1 + p.len());
    lemma_find_from(s, p, e);
    assert(find_from(s, p, 0) == i1);
    assert(find_from(s, p, i1 + p.len()) == i2);
    assert(find_from(s, p, e) == -1);
    assert(s.subrange(0, i1) =~= a);
    assert(s.subrange(i1 + p.len(), i2) =~= b);
    assert(s.subrange(e, s.len() as int) =~= c);
    assert(replace_from(s, p, r, e) == c);
    assert(replace_from(s, p, r, i1 + p.len()) == b + r + c);
    assert(replace_from(s, p, r, 0) == a + r + (b + r + c));
    assert(replace(s, p, r) =~= a + r + b + r + c);
}

pub fn replace_exec(v: &Vec<char>, p: &Vec<char>, r: &Vec<char>) -> (res: Vec<char>)
    ensures
        res@ == replace(v@, p@, r@),
{
    let mut out: Vec<char> = Vec::new();
    if p.len() == 0 {
        let mut i: usize = 0;
        assert(v@.subrange(0, v.len() as int) =~= v@);
        assert(out@ + replace_empty(v@, r@) =~= replace_empty(v@, r@));
        while i < v.len()
            invariant
                i <= v.len(),
                out@ + replace_empty(v@.subrange(i as int, v.len() as int), r@) == replace_empty(
                    v@,
                    r@,
                ),
            decreases v.len() - i,
        {
            proof {
                assert(i == 0 ==> v@.subrange(0, v.len() as int) =~= v@);
                let rest = v@.subrange(i as int, v.len() as int);
                assert(rest.drop_first() =~= v@.subrange(i + 1, v.len() as int));
            }
            let ghost old_out = out@;
            append_chars(&mut out, r);
            out.push(v[i]);
            assert(out@ =~= old_out + r@ + seq![v@[i as int]]);
            i += 1;
        }
        assert(v@.subrange(v.len() as int, v.len() as int) =~= Seq::<char>::empty());
        append_chars(&mut out, r);
        assert(out@ =~= replace_empty(v@, r@));
        return out;
    }
    let mut start: usize = 0;
    loop
        invariant
            p.len() > 0,
            start <= v.len(),
            out@ + replace_from(v@, p@, r@, start as int) == replace(v@, p@, r@),
        decreases v.len() + 1 - start,
    {
        proof {
            lemma_find_from(v@, p@, start as int);
        }
        match find_from_exec(v, p, start) {
            None => {
                let piece = slice_of(v, start, v.len());
                append_chars(&mut out, &piece);
                return out;
            },
            Some(f) => {
                let piece = slice_of(v, start, f);
                let ghost old_out = out@;
                append_chars(&mut out, &piece);
                append_chars(&mut out, r);
                assert(old_out + replace_from(v@, p@, r@, start as int) =~= out@ + replace_from(
                    v@,
                    p@,
                    r@,
                    f + p.len(),
                ));
                start = f + p.len();
            },
        }
    }
}

/// The lines of `s[i..]`, as `str::lines` gives them: split after each
/// `\n`, with the `\n` and a `\r` before it removed; no line follows a
/// final `\n`.
pub open spec fn lines_from(s: Seq<char>, i: int) -> Seq<Seq<char>>
    decreases s.len() + 1 - i,
{
    if i < 0 || i >= s.len() {
        seq![]
    } else {
        let f = find_from(s, seq!['\n'], i);
        if f < 0 {
            seq![s.subrange(i, s.len() as int)]
        } else {
            proof {
                lemma_find_from(s, seq!['\n'], i);
            }
            let line = s.subrange(i, f);
            let line = if line.len() > 0 && line.last() == '\r' {
                line.drop_last()
            } else {
                line
            };
            seq![line] + lines_from(s, f + 1)
        }
    }
}

pub open spec fn lines(s: Seq<char>) -> Seq<Seq<char>> {
    lines_from(s, 0)
}

pub fn lines_exec(v: &Vec<char>) -> (res: Vec<Vec<char>>)
    ensures
        views(res@) == lines(v@),
{
    let mut nl: Vec<char> = Vec::new();
    nl.push('\n');
    assert(nl@ =~= seq!['\n']);
    let mut res: Vec<Vec<char>> = Vec::new();
    let mut start: usize = 0;
    loop
        invariant
            nl@ == seq!['\n'],
            start <= v.len(),
            views(res@) + lines_from(v@, start as int) == lines(v@),
        decreases v.len() + 1 - start,
    {
        if start >= v.len() {
            assert(views(res@) =~= views(res@) + lines_from(v@, start as int));
            return res;
        }
        proof {
            lemma_find_from(v@, nl@, start as int);
        }
        let ghost old_res = res@;
        match find_from_exec(v, &nl, start) {
            None => {
                let piece = slice_of(v, start, v.len());
                res.push(piece);
                assert(views(res@) =~= views(old_res).push(piece@));
                assert(views(old_res) + lines_from(v@, start as int) =~= views(res@));
                return res;
            },
            Some(f) => {
                let mut piece = slice_of(v, start, f);
                if piece.len() > 0 && piece[piece.len() - 1] == '\r' {
                    piece.pop();
                }
                res.push(piece);
                assert(views(res@) =~= views(old_res).push(piece@));
                assert(views(old_res) + lines_from(v@, start as int) =~= views(res@) + lines_from(
                    v@,
                    f + 1,
                ));
                start = f + 1;
            },
        }
    }
}

/// The pieces joined with `sep` between them: `[T]::join`.
pub open spec fn join(ps: Seq<Seq<char>>, sep: Seq<char>) -> Seq<char>
    decreases ps.len(),
{
    if ps.len() == 0 {
        seq![]
    } else if ps.len() == 1 {
        ps[0]
    } else {
        join(ps.drop_last(), sep) + sep + ps.last()
    }
}

pub fn join_exec(ps: &Vec<Vec<char>>, sep: &Vec<char>) -> (res: Vec<char>)
    ensures
        res@ == join(views(ps@), sep@),
{
    let mut out: Vec<char> = Vec::new();
    for k in 0..ps.len()
        invariant
            out@ == join(views(ps@).take(k as int), sep@),
    {
        let ghost t = views(ps@).take(k + 1);
        assert(t.drop_last() =~= views(ps@).take(k as int));
        if k > 0 {
            append_chars(&mut out, sep);
        }
        append_chars(&mut out, &ps[k]);
        assert(k == 0 ==> out@ =~= join(t, sep@));
    }
    assert(views(ps@).take(ps.len() as int) =~= views(ps@));
    out
}

/// The maximal runs of characters of `s` that are not in `seps`, with the
/// run still open at the end of `s` kept apart.
pub open spec fn tokens_fold(s: Seq<char>, seps: Seq<char>) -> (Seq<Seq<char>>, Seq<char>)
    decreases s.len(),
{
    if s.len() == 0 {
        (seq![], seq![])
    } else {
        let (done, cur) = tokens_fold(s.drop_last(), seps);
        if seps.contains(s.last()) {
            if cur.len() > 0 {
                (done.push(cur), seq![])
            } else {
                (done, seq![])
            }
        } else {
            (done, cur.push(s.last()))
        }
    }
}

/// `s.split(seps).filter(|p| !p.is_empty())`: the non-empty pieces between
/// the separator characters.
pub open spec fn tokens(s: Seq<char>, seps: Seq<char>) -> Seq<Seq<char>> {
    let (done, cur) = tokens_fold(s, seps);
    if cur.len() > 0 {
        done.push(cur)
    } else {
        done
    }
}

pub fn tokens_exec(v: &Vec<char>, seps: &Vec<char>) -> (res: Vec<Vec<char>>)
    ensures
        views(res@) == tokens(v@, seps@),
{
    let mut done: Vec<Vec<char>> = Vec::new();
    let mut cur: Vec<char> = Vec::new();
    for i in 0..v.len()
        invariant
            (views(done@), cur@) == tokens_fold(v@.take(i as int), seps@),
    {
        let c = v[i];
        assert(v@.take(i + 1).drop_last() =~= v@.take(i as int));
        let mut is_sep = false;
        for k in 0..seps.len()
            invariant
                is_sep == (exists|t: int| 0 <= t < k && seps@[t] == c),
        {
            if seps[k] == c {
                is_sep = true;
            }
        }
        assert(is_sep == seps@.contains(c));
        if is_sep {
            if cur.len() > 0 {
                let ghost old_done = done@;
                let piece = cur;
                done.push(piece);
                assert(views(done@) =~= views(old_done).push(piece@));
                cur = Vec::new();
            } else {
                cur = Vec::new();
            }
        } else {
            cur.push(c);
        }
    }
    assert(v@.take(v.len() as int) =~= v@);
    if cur.len() > 0 {
        let ghost old_done = done@;
        let piece = cur;
        done.push(piece);
        assert(views(done@) =~= views(old_done).push(piece@));
    }
    done
}


// ---------------------------------------------------------------------
// Sequences
// ---------------------------------------------------------------------

/// The first index from `i` on whose element satisfies `pred`, or -1.
pub open spec fn first_index<A>(s: Seq<A>, pred: spec_fn(A) -> bool, i: int) -> int
    decreases s.len() - i,
{
    if i < 0 || i >= s.len() {
        -1
    } else if pred(s[i]) {
        i
    } else {
        first_index(s, pred, i + 1)
    }
}

pub proof fn lemma_first_index<A>(s: Seq<A>, pred: spec_fn(A) -> bool, i: int)
    requires
        0 <= i,
    ensures
        first_index(s, pred, i) == -1 || (i <= first_index(s, pred, i) < s.len() && pred(
            s[first_index(s, pred, i)],
        )),
        first_index(s, pred, i) == -1 ==> forall|j: int| i <= j < s.len() ==> !pred(s[j]),
    decreases s.len() - i,
{
    if i < s.len() && !pred(s[i]) {
        lemma_first_index(s, pred, i + 1);
    }
}

/// The first index from `i` of an element that satisfies `pred` is `k`
/// when `s[k]` does and none before it does.
pub proof fn lemma_first_index_at<A>(s: Seq<A>, pred: spec_fn(A) -> bool, i: int, k: int)
    requires
        0 <= i <= k < s.len(),
        pred(s[k]),
        forall|j: int| i <= j < k ==> !pred(#[trigger] s[j]),
    ensures
        first_index(s, pred, i) == k,
    decreases k - i,
{
    if i < k {
        lemma_first_index_at(s, pred, i + 1, k);
    }
}

/// The elements in order, each only at its first occurrence.
pub open spec fn dedup_seq<A>(s: Seq<A>) -> Seq<A>
    decreases s.len(),
{
    if s.len() == 0 {
        s
    } else if dedup_seq(s.drop_last()).contains(s.last()) {
        dedup_seq(s.drop_last())
    } else {
        dedup_seq(s.drop_last()).push(s.last())
    }
}

// ---------------------------------------------------------------------
// Numbers
// ---------------------------------------------------------------------

/// The digit of value `d` in base 16 or less, in lower case.
pub open spec fn digit(d: nat) -> char {
    if d < 10 {
        (48 + d) as char
    } else {
        (87 + d) as char
    }
}

/// The decimal form of `n`, without leading zeros.
pub open spec fn decimal(n: nat) -> Seq<char>
    decreases n,
{
    if n < 10 {
        seq![digit(n)]
    } else {
        decimal(n / 10).push(digit(n % 10))
    }
}

/// The lower-case hexadecimal form of `n`, without leading zeros.
pub open spec fn hex(n: nat) -> Seq<char>
    decreases n,
{
    if n < 16 {
        seq![digit(n)]
    } else {
        hex(n / 16).push(digit(n % 16))
    }
}

fn digit_exec(d: u64) -> (c: char)
    requires
        d < 16,
    ensures
        c == digit(d as nat),
{
    if d < 10 {
        char_from_ascii((48 + d) as u8)
    } else {
        char_from_ascii((87 + d) as u8)
    }
}

/// The decimal form of `n`.
pub fn decimal_exec(n: u64) -> (res: Vec<char>)
    ensures
        res@ == decimal(n as nat),
    decreases n,
{
    if n < 10 {
        let mut v: Vec<char> = Vec::new();
        v.push(digit_exec(n));
        assert(v@ =~= seq![digit(n as nat)]);
        v
    } else {
        let mut v = decimal_exec(n / 10);
        v.push(digit_exec(n % 10));
        v
    }
}

/// The lower-case hexadecimal form of `n`.
pub fn hex_exec(n: u64) -> (res: Vec<char>)
    ensures
        res@ == hex(n as nat),
    decreases n,
{
    if n < 16 {
        let mut v: Vec<char> = Vec::new();
        v.push(digit_exec(n));
        assert(v@ =~= seq![digit(n as nat)]);
        v
    } else {
        let mut v = hex_exec(n / 16);
        v.push(digit_exec(n % 16));
        v
    }
}

/// The decimal form of a signed number, with `-` before a negative one.
pub open spec fn signed_decimal(n: int) -> Seq<char> {
    if n < 0 {
        seq!['-'] + decimal((-n) as nat)
    } else {
        decimal(n as nat)
    }
}

pub fn signed_decimal_exec(n: i64) -> (res: Vec<char>)
    ensures
        res@ == signed_decimal(n as int),
{
    if n < 0 {
        let m: u64 = if n == i64::MIN {
            9223372036854775808u64
        } else {
            (-n) as u64
        };
        let digits = decimal_exec(m);
        let mut v: Vec<char> = Vec::new();
        v.push('-');
        append_chars(&mut v, &digits);
        assert(v@ =~= seq!['-'] + digits@);
        v
    } else {
        decimal_exec(n as u64)
    }
}

pub open spec fn is_digit(c: char) -> bool {
    '0' <= c <= '9'
}

/// The value of a string of decimal digits.
pub open spec fn digits_value(s: Seq<char>) -> nat
    decreases s.len(),
{
    if s.len() == 0 {
        0
    } else {
        digits_value(s.drop_last()) * 10 + ((s.last() as int - 48) as nat)
    }
}

/// `s` without one leading `+`.
pub open spec fn unsigned_body(s: Seq<char>) -> Seq<char> {
    if s.len() > 0 && s[0] == '+' {
        s.drop_first()
    } else {
        s
    }
}

/// What `str::parse` gives for an unsigned type whose largest value is
/// `max`: `None` for an empty string, any character but a leading `+` and
/// digits, or a value above `max`.
pub open spec fn parse_unsigned(s: Seq<char>, max: nat) -> Option<nat> {
    let b = unsigned_body(s);
    if b.len() > 0 && (forall|i: int| 0 <= i < b.len() ==> is_digit(b[i])) && digits_value(b)
        <= max {
        Some(digits_value(b))
    } else {
        None
    }
}

/// `str::parse::<u64>`, with its error as `None`.
pub fn parse_u64(v: &Vec<char>) -> (res: Option<u64>)
    ensures
        match parse_unsigned(v@, u64::MAX as nat) {
            Some(n) => res == Some(n as u64),
            None => res is None,
        },
{
    let start: usize = if v.len() > 0 && v[0] == '+' {
        1
    } else {
        0
    };
    let ghost b = unsigned_body(v@);
    assert(b =~= v@.subrange(start as int, v.len() as int));
    if start >= v.len() {
        return None;
    }
    let mut value: u64 = 0;
    let mut overflow = false;
    let mut i = start;
    while i < v.len()
        invariant
            start <= i <= v.len(),
            b == unsigned_body(v@),
            b == v@.subrange(start as int, v.len() as int),
            forall|t: int| 0 <= t < i - start ==> is_digit(b[t]),
            !overflow ==> value as nat == digits_value(b.take(i - start)),
            overflow ==> digits_value(b.take(i - start)) > u64::MAX,
        decreases v.len() - i,
    {
        let c = v[i];
        if !('0' <= c && c <= '9') {
            assert(!is_digit(b[i - start]));
            assert(!(forall|t: int| 0 <= t < b.len() ==> is_digit(b[t])));
            return None;
        }
        let d = (c as u32 - 48) as u64;
        assert(b.take(i + 1 - start).drop_last() =~= b.take(i - start));
        if !overflow {
            match value.checked_mul(10) {
                Some(t) => match t.checked_add(d) {
                    Some(u) => {
                        value = u;
                    },
                    None => {
                        overflow = true;
                    },
                },
                None => {
                    overflow = true;
                },
            }
        }
        i += 1;
    }
    assert(b.take(v.len() - start) =~= b);
    if overflow {
        None
    } else {
        Some(value)
    }
}


proof fn lemma_decimal_digits(n: nat)
    ensures
        decimal(n).len() > 0,
        forall|i: int| 0 <= i < decimal(n).len() ==> is_digit(#[trigger] decimal(n)[i]),
        digits_value(decimal(n)) == n,
    decreases n,
{
    if n < 10 {
        assert(decimal(n) =~= seq![digit(n)]);
        assert(seq![digit(n)].drop_last() =~= Seq::<char>::empty());
        assert(digit(n) as int == 48 + n);
        assert(digits_value(Seq::<char>::empty()) == 0);
        assert(digits_value(decimal(n)) == digits_value(decimal(n).drop_last()) * 10 + ((decimal(
            n,
        ).last() as int - 48) as nat));
    } else {
        lemma_decimal_digits(n / 10);
        let d = decimal(n);
        assert(d.drop_last() =~= decimal(n / 10));
        assert(forall|i: int| 0 <= i < d.len() - 1 ==> d[i] == decimal(n / 10)[i]);
        assert(d.last() as int == 48 + n % 10);
        assert(n == (n / 10) * 10 + n % 10);
        assert(digits_value(d) == digits_value(d.drop_last()) * 10 + ((d.last() as int - 48) as nat));
    }
}

/// The decimal form of a number parses back to it, for every type large
/// enough to hold it: what a setting shows is what it reads.
pub proof fn law_decimal_parses_back(n: nat, max: nat)
    requires
        n <= max,
    ensures
        parse_unsigned(decimal(n), max) == Some(n),
{
    lemma_decimal_digits(n);
    assert(decimal(n)[0] != '+');
    assert(unsigned_body(decimal(n)) == decimal(n));
}

} // verus!
