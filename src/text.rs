//! Character-level helpers over `Seq<char>` and their executable counterparts.

use vstd::prelude::*;
use vstd::string::*;

verus! {

/// Index of the first `c` in `s` at or after `i`, or `s.len()` when there is none.
pub open spec fn find_from(s: Seq<char>, c: char, i: int) -> int
    decreases s.len() - i,
{
    if i < 0 || i >= s.len() {
        s.len() as int
    } else if s[i] == c {
        i
    } else {
        find_from(s, c, i + 1)
    }
}

/// Index of the first `c` in `s`, or `s.len()` when there is none.
pub open spec fn find(s: Seq<char>, c: char) -> int {
    find_from(s, c, 0)
}

pub open spec fn contains_char(s: Seq<char>, c: char) -> bool {
    find(s, c) < s.len()
}

/// Index of the first character at or after `i` that is not `c`.
pub open spec fn skip_run_from(s: Seq<char>, c: char, i: int) -> int
    decreases s.len() - i,
{
    if i < 0 || i >= s.len() {
        s.len() as int
    } else if s[i] != c {
        i
    } else {
        skip_run_from(s, c, i + 1)
    }
}

pub open spec fn git_suffix() -> Seq<char> {
    seq!['.', 'g', 'i', 't']
}

pub open spec fn ends_with_git(s: Seq<char>) -> bool {
    s.len() >= 4 && s.skip(s.len() - 4) == git_suffix()
}

/// `s` with every trailing `/` and `.git` removed, repeatedly.
pub open spec fn trim_tail(s: Seq<char>) -> Seq<char>
    decreases s.len(),
{
    if s.len() > 0 && s.last() == '/' {
        trim_tail(s.drop_last())
    } else if ends_with_git(s) {
        trim_tail(s.take(s.len() - 4))
    } else {
        s
    }
}

/// Scanning `s` left to right: the non-empty `/`-separated pieces already
/// closed by a `/`, and the piece still open at the end.
pub open spec fn scan(s: Seq<char>) -> (Seq<Seq<char>>, Seq<char>)
    decreases s.len(),
{
    if s.len() == 0 {
        (seq![], seq![])
    } else {
        let (done, cur) = scan(s.drop_last());
        if s.last() == '/' {
            (if cur.len() == 0 { done } else { done.push(cur) }, seq![])
        } else {
            (done, cur.push(s.last()))
        }
    }
}

/// The non-empty pieces of `s` between `/` separators, in order.
pub open spec fn split_nonempty(s: Seq<char>) -> Seq<Seq<char>> {
    let (done, cur) = scan(s);
    if cur.len() == 0 {
        done
    } else {
        done.push(cur)
    }
}

/// Path segments of the text after a host: split on `/`, empty pieces
/// dropped, trailing `.git` removed.
pub open spec fn segments(p: Seq<char>) -> Seq<Seq<char>> {
    split_nonempty(trim_tail(p))
}

/// The first `.`-delimited label of a host.
pub open spec fn label(h: Seq<char>) -> Seq<char> {
    h.take(find(h, '.'))
}

pub open spec fn views(v: Seq<String>) -> Seq<Seq<char>> {
    v.map_values(|x: String| x@)
}

pub proof fn lemma_find_from(s: Seq<char>, c: char, i: int)
    requires
        0 <= i <= s.len(),
    ensures
        i <= find_from(s, c, i) <= s.len(),
        forall|j: int| i <= j < find_from(s, c, i) ==> s[j] != c,
        find_from(s, c, i) < s.len() ==> s[find_from(s, c, i)] == c,
    decreases s.len() - i,
{
    if i < s.len() && s[i] != c {
        lemma_find_from(s, c, i + 1);
    }
}

/// A position `k` with `c` at it and none before it is the first one.
pub proof fn lemma_find_at(s: Seq<char>, c: char, i: int, k: int)
    requires
        0 <= i <= k <= s.len(),
        k < s.len() ==> s[k] == c,
        forall|j: int| i <= j < k ==> s[j] != c,
    ensures
        find_from(s, c, i) == k,
    decreases k - i,
{
    if i < k {
        lemma_find_from(s, c, i);
        lemma_find_at(s, c, i + 1, k);
    }
}

pub proof fn lemma_skip_run_from(s: Seq<char>, c: char, i: int)
    requires
        0 <= i <= s.len(),
    ensures
        i <= skip_run_from(s, c, i) <= s.len(),
    decreases s.len() - i,
{
    if i < s.len() && s[i] == c {
        lemma_skip_run_from(s, c, i + 1);
    }
}

/// Every piece that a scan has closed is non-empty.
pub proof fn lemma_scan_nonempty(s: Seq<char>)
    ensures
        forall|i: int| 0 <= i < scan(s).0.len() ==> #[trigger] scan(s).0[i].len() > 0,
    decreases s.len(),
{
    if s.len() > 0 {
        let p = s.drop_last();
        lemma_scan_nonempty(p);
        let d = scan(p).0;
        let c = scan(p).1;
        if s.last() == '/' && c.len() > 0 {
            assert forall|i: int| 0 <= i < d.push(c).len() implies #[trigger] d.push(c)[i].len()
                > 0 by {
                if i < d.len() {
                    assert(d.push(c)[i] == d[i]);
                }
            }
        }
    }
}

/// The open piece of a scan is a suffix of the text, non-empty when the text
/// does not end with `/`.
pub proof fn lemma_scan_suffix(s: Seq<char>)
    ensures
        scan(s).1.len() <= s.len(),
        s.skip(s.len() - scan(s).1.len()) == scan(s).1,
        s.len() > 0 && s.last() != '/' ==> scan(s).1.len() > 0,
    decreases s.len(),
{
    if s.len() == 0 {
        assert(s.skip(0) =~= s);
    } else {
        let p = s.drop_last();
        lemma_scan_suffix(p);
        if s.last() == '/' {
            assert(s.skip(s.len() as int) =~= Seq::<char>::empty());
        } else {
            let c = scan(p).1;
            assert(s.skip(s.len() - c.len() - 1) =~= p.skip(p.len() - c.len()).push(s.last()));
        }
    }
}

/// What `trim_tail` leaves ends neither with `/` nor with `.git`.
pub proof fn lemma_trim_tail(s: Seq<char>)
    ensures
        !(trim_tail(s).len() > 0 && trim_tail(s).last() == '/'),
        !ends_with_git(trim_tail(s)),
        trim_tail(s).len() <= s.len(),
    decreases s.len(),
{
    if s.len() > 0 && s.last() == '/' {
        lemma_trim_tail(s.drop_last());
    } else if ends_with_git(s) {
        lemma_trim_tail(s.take(s.len() - 4));
    }
}

/// No segment is empty, and the last one does not end with `.git`.
pub proof fn lemma_segments(p: Seq<char>)
    ensures
        forall|i: int| 0 <= i < segments(p).len() ==> #[trigger] segments(p)[i].len() > 0,
        segments(p).len() > 0 ==> !ends_with_git(segments(p).last()),
{
    let t = trim_tail(p);
    lemma_trim_tail(p);
    lemma_scan_nonempty(t);
    lemma_scan_suffix(t);
    let c = scan(t).1;
    if c.len() > 0 {
        assert(segments(p).last() == c);
        if c.len() >= 4 {
            assert(c.skip(c.len() - 4) =~= t.skip(t.len() - 4));
        }
    }
}

/// The characters of `s`, one element each.
pub fn chars_of(s: &str) -> (r: Vec<char>)
    ensures
        r@ == s@,
{
    let n = s.unicode_len();
    let mut v: Vec<char> = Vec::new();
    let mut i: usize = 0;
    while i < n
        invariant
            n == s@.len(),
            i <= n,
            v@ == s@.take(i as int),
        decreases n - i,
    {
        v.push(s.get_char(i));
        i = i + 1;
        assert(v@ =~= s@.take(i as int));
    }
    assert(v@ =~= s@);
    v
}

/// Position of the first `c` in `s` at or after `from`.
pub fn find_char(s: &Vec<char>, c: char, from: usize) -> (r: usize)
    requires
        from <= s@.len(),
    ensures
        r == find_from(s@, c, from as int),
{
    let mut i = from;
    while i < s.len()
        invariant
            from <= i <= s@.len(),
            find_from(s@, c, i as int) == find_from(s@, c, from as int),
        decreases s@.len() - i,
    {
        if s[i] == c {
            return i;
        }
        i = i + 1;
    }
    i
}

/// Position of the first character at or after `from` that is not `c`.
pub fn skip_run(s: &Vec<char>, c: char, from: usize) -> (r: usize)
    requires
        from <= s@.len(),
    ensures
        r == skip_run_from(s@, c, from as int),
{
    let mut i = from;
    while i < s.len()
        invariant
            from <= i <= s@.len(),
            skip_run_from(s@, c, i as int) == skip_run_from(s@, c, from as int),
        decreases s@.len() - i,
    {
        if s[i] != c {
            return i;
        }
        i = i + 1;
    }
    i
}

/// An owned copy of the characters of `s` in `[from, to)`.
pub fn substring(s: &str, from: usize, to: usize) -> (r: String)
    requires
        from <= to <= s@.len(),
    ensures
        r@ == s@.subrange(from as int, to as int),
{
    String::from_str(s.substring_char(from, to))
}

fn ends_with_git_at(s: &Vec<char>, end: usize) -> (r: bool)
    requires
        end <= s@.len(),
    ensures
        r == ends_with_git(s@.take(end as int)),
{
    if end < 4 {
        return false;
    }
    let r = s[end - 4] == '.' && s[end - 3] == 'g' && s[end - 2] == 'i' && s[end - 1] == 't';
    let ghost t = s@.take(end as int);
    assert(t.skip(t.len() - 4) == git_suffix() <==> r) by {
        if r {
            assert(t.skip(t.len() - 4) =~= git_suffix());
        }
        if t.skip(t.len() - 4) == git_suffix() {
            assert(t.skip(t.len() - 4)[0] == '.');
            assert(t.skip(t.len() - 4)[1] == 'g');
            assert(t.skip(t.len() - 4)[2] == 'i');
            assert(t.skip(t.len() - 4)[3] == 't');
        }
    }
    r
}

/// Length of `trim_tail(s)`.
fn trimmed_len(s: &Vec<char>) -> (r: usize)
    ensures
        r <= s@.len(),
        s@.take(r as int) == trim_tail(s@),
{
    let mut e = s.len();
    assert(s@.take(e as int) =~= s@);
    while e > 0
        invariant
            e <= s@.len(),
            trim_tail(s@.take(e as int)) == trim_tail(s@),
        decreases e,
    {
        let ghost t = s@.take(e as int);
        if s[e - 1] == '/' {
            assert(t.drop_last() =~= s@.take(e - 1));
            e = e - 1;
        } else if ends_with_git_at(s, e) {
            assert(t.take(t.len() - 4) =~= s@.take(e - 4));
            e = e - 4;
        } else {
            return e;
        }
    }
    e
}

/// Segments of the path text `p` that follows a host: split on `/`, empty
/// pieces dropped, trailing `.git` removed from the end.
pub fn path_segments(p: &str) -> (r: Vec<String>)
    ensures
        views(r@) == segments(p@),
{
    let cs = chars_of(p);
    let e = trimmed_len(&cs);
    let ghost t = trim_tail(p@);
    let mut done: Vec<String> = Vec::new();
    let mut start: usize = 0;
    let mut i: usize = 0;
    while i < e
        invariant
            cs@ == p@,
            e <= cs@.len(),
            t == cs@.take(e as int),
            start <= i <= e,
            scan(t.take(i as int)).0 == views(done@),
            scan(t.take(i as int)).1 == t.subrange(start as int, i as int),
        decreases e - i,
    {
        let ghost prev = t.take(i as int);
        assert(t.take(i + 1).drop_last() =~= prev);
        if cs[i] == '/' {
            if start < i {
                let piece = substring(p, start, i);
                assert(piece@ =~= t.subrange(start as int, i as int));
                let ghost before = done@;
                done.push(piece);
                assert(views(done@) =~= views(before).push(piece@));
            }
            start = i + 1;
        } else {
            assert(t.subrange(start as int, i + 1) =~= t.subrange(start as int, i as int).push(
                cs@[i as int],
            ));
        }
        i = i + 1;
    }
    assert(t.take(e as int) =~= t);
    if start < e {
        let piece = substring(p, start, e);
        assert(piece@ =~= t.subrange(start as int, e as int));
        let ghost before = done@;
        done.push(piece);
        assert(views(done@) =~= views(before).push(piece@));
    }
    done
}

/// The first `.`-delimited label of a host (`github` of `github.com`).
pub fn first_label(host: &str) -> (r: String)
    ensures
        r@ == label(host@),
{
    let cs = chars_of(host);
    let k = find_char(&cs, '.', 0);
    proof {
        lemma_find_from(host@, '.', 0);
    }
    substring(host, 0, k)
}

} // verus!
