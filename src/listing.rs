use vstd::prelude::*;
use crate::error::SyncError;
use crate::tag::{TagInfo, TagModel, models};
use crate::timestamp::{Timestamp, parsed_instant};

verus! {

/// Whether `char::is_whitespace` holds of a character (Unicode's White_Space).
pub uninterp spec fn whitespace(c: char) -> bool;

/// Relies on `char::is_whitespace`.
#[verifier::external_body]
fn is_whitespace(c: char) -> (r: bool)
    ensures
        r == whitespace(c),
{
    c.is_whitespace()
}

/// Relies on `String::push`: appends one character.
#[verifier::external_body]
fn push_char(s: &mut String, c: char)
    ensures
        final(s)@ == old(s)@.push(c),
{
    s.push(c)
}

/// The characters stripped from the ends of a listed line: white space first,
/// then single quotes.
pub open spec fn strippable(quote: bool) -> spec_fn(char) -> bool {
    if quote {
        |c: char| c == '\''
    } else {
        |c: char| whitespace(c)
    }
}

/// `s` without the characters at its start that `p` holds of.
pub open spec fn trim_front(s: Seq<char>, p: spec_fn(char) -> bool) -> Seq<char>
    decreases s.len(),
{
    if s.len() > 0 && p(s[0]) {
        trim_front(s.drop_first(), p)
    } else {
        s
    }
}

/// `s` without the characters at its end that `p` holds of.
pub open spec fn trim_back(s: Seq<char>, p: spec_fn(char) -> bool) -> Seq<char>
    decreases s.len(),
{
    if s.len() > 0 && p(s.last()) {
        trim_back(s.drop_last(), p)
    } else {
        s
    }
}

/// `s` without the characters at either end that `p` holds of.
pub open spec fn strip(s: Seq<char>, p: spec_fn(char) -> bool) -> Seq<char> {
    trim_back(trim_front(s, p), p)
}

/// A listed line without surrounding white space and quotes.
pub open spec fn clean_line(line: Seq<char>) -> Seq<char> {
    strip(strip(line, strippable(false)), strippable(true))
}

/// The part of `s` before its first comma, or all of `s`.
pub open spec fn before_comma(s: Seq<char>) -> Seq<char> {
    match s.index_of_first(',') {
        Some(k) => s.take(k),
        None => s,
    }
}

/// The tag a listed line names: the name comes before the first comma, the
/// commit time after it, up to any second comma. Nothing where the line has no
/// comma or the time is not an RFC 3339 date-time in the representable range.
pub open spec fn line_tag(line: Seq<char>) -> Option<TagModel> {
    let c = clean_line(line);
    match c.index_of_first(',') {
        None => None,
        Some(k) => match parsed_instant(before_comma(c.skip(k + 1))) {
            Some(t) => Some(TagModel { name: c.take(k), commit_time: t }),
            None => None,
        },
    }
}

/// Appends the tag of a line to those read so far; nothing once a line failed.
pub open spec fn add_line(acc: Option<Seq<TagModel>>, line: Seq<char>) -> Option<Seq<TagModel>> {
    match acc {
        Some(ts) => match line_tag(line) {
            Some(t) => Some(ts.push(t)),
            None => None,
        },
        None => None,
    }
}

/// Reads a listing character by character: the tags of the lines that a
/// newline has ended, and the line under way.
pub open spec fn scan(s: Seq<char>) -> (Option<Seq<TagModel>>, Seq<char>)
    decreases s.len(),
{
    if s.len() == 0 {
        (Some(Seq::empty()), Seq::empty())
    } else {
        let prev = scan(s.drop_last());
        if s.last() == '\n' {
            (add_line(prev.0, prev.1), Seq::empty())
        } else {
            (prev.0, prev.1.push(s.last()))
        }
    }
}

/// The tags of a listing, one per line, in order; a last line without a
/// newline counts, an empty one does not. Nothing where any line is malformed.
pub open spec fn listing_tags(s: Seq<char>) -> Option<Seq<TagModel>> {
    let r = scan(s);
    if r.1.len() == 0 {
        r.0
    } else {
        add_line(r.0, r.1)
    }
}

/// The characters of a text.
fn chars_of(s: &str) -> (r: Vec<char>)
    ensures
        r@ == s@,
{
    let mut v: Vec<char> = Vec::new();
    for c in it: s.chars()
        invariant
            v@ == it.seq().take(it.index() as int),
    {
        v.push(c);
    }
    assert(v@ =~= s@);
    v
}

/// The text of `v[lo..hi]`.
fn string_of(v: &Vec<char>, lo: usize, hi: usize) -> (r: String)
    requires
        lo <= hi <= v.len(),
    ensures
        r@ == v@.subrange(lo as int, hi as int),
{
    let mut s = String::new();
    let mut i = lo;
    while i < hi
        invariant
            lo <= i <= hi <= v.len(),
            s@ == v@.subrange(lo as int, i as int),
        decreases hi - i,
    {
        push_char(&mut s, v[i]);
        assert(v@.subrange(lo as int, i + 1) =~= v@.subrange(lo as int, i as int).push(v@[i as int]));
        i += 1;
    }
    s
}

fn is_strippable(c: char, quote: bool) -> (r: bool)
    ensures
        r == strippable(quote)(c),
{
    if quote {
        c == '\''
    } else {
        is_whitespace(c)
    }
}

/// The bounds of `strip(v[lo..hi])` within `v`.
fn strip_range(v: &Vec<char>, lo: usize, hi: usize, quote: bool) -> (r: (usize, usize))
    requires
        lo <= hi <= v.len(),
    ensures
        lo <= r.0 <= r.1 <= hi,
        v@.subrange(r.0 as int, r.1 as int) == strip(
            v@.subrange(lo as int, hi as int),
            strippable(quote),
        ),
{
    let ghost p = strippable(quote);
    let mut a = lo;
    while a < hi && is_strippable(v[a], quote)
        invariant
            lo <= a <= hi <= v.len(),
            p == strippable(quote),
            trim_front(v@.subrange(lo as int, hi as int), p) == trim_front(
                v@.subrange(a as int, hi as int),
                p,
            ),
        decreases hi - a,
    {
        assert(v@.subrange(a as int, hi as int).drop_first() =~= v@.subrange(a + 1, hi as int));
        assert(v@.subrange(a as int, hi as int)[0] == v@[a as int]);
        assert(trim_front(v@.subrange(a as int, hi as int), p) == trim_front(
            v@.subrange(a + 1, hi as int),
            p,
        ));
        a += 1;
    }
    let mut b = hi;
    while b > a && is_strippable(v[b - 1], quote)
        invariant
            lo <= a <= b <= hi <= v.len(),
            p == strippable(quote),
            trim_back(v@.subrange(a as int, hi as int), p) == trim_back(
                v@.subrange(a as int, b as int),
                p,
            ),
        decreases b - a,
    {
        assert(v@.subrange(a as int, b as int).drop_last() =~= v@.subrange(a as int, b - 1));
        assert(v@.subrange(a as int, b as int).last() == v@[b - 1]);
        assert(trim_back(v@.subrange(a as int, b as int), p) == trim_back(
            v@.subrange(a as int, b - 1),
            p,
        ));
        b -= 1;
    }
    (a, b)
}

/// The index of the first comma of `v[lo..hi]`, or `hi`.
fn find_comma(v: &Vec<char>, lo: usize, hi: usize) -> (r: usize)
    requires
        lo <= hi <= v.len(),
    ensures
        lo <= r <= hi,
        v@.subrange(lo as int, hi as int).index_of_first(',') == (if r < hi {
            Some(r - lo)
        } else {
            None::<int>
        }),
{
    let ghost s = v@.subrange(lo as int, hi as int);
    let mut k = lo;
    while k < hi && v[k] != ','
        invariant
            lo <= k <= hi <= v.len(),
            forall|j: int| lo <= j < k ==> v@[j] != ',',
        decreases hi - k,
    {
        k += 1;
    }
    proof {
        s.index_of_first_ensures(',');
        if k < hi {
            assert(s[k - lo] == ',');
            match s.index_of_first(',') {
                Some(idx) => {
                    assert(s[idx] == v@[lo + idx]);
                },
                None => {},
            }
        } else {
            if s.contains(',') {
                let j = choose|j: int| 0 <= j < s.len() && s[j] == ',';
                assert(s[j] == v@[lo + j]);
            }
        }
    }
    k
}

/// Reads the tag of the line `v[lo..hi]`.
fn parse_line(v: &Vec<char>, lo: usize, hi: usize) -> (r: Option<TagInfo>)
    requires
        lo <= hi <= v.len(),
    ensures
        match r {
            Some(t) => line_tag(v@.subrange(lo as int, hi as int)) == Some(t@),
            None => line_tag(v@.subrange(lo as int, hi as int)) is None,
        },
{
    let (a0, b0) = strip_range(v, lo, hi, false);
    let (a, b) = strip_range(v, a0, b0, true);
    let ghost c = v@.subrange(a as int, b as int);
    assert(c == clean_line(v@.subrange(lo as int, hi as int)));
    let k = find_comma(v, a, b);
    if k == b {
        return None;
    }
    let m = find_comma(v, k + 1, b);
    assert(c.skip(k + 1 - a) =~= v@.subrange(k + 1, b as int));
    assert(c.take(k - a) =~= v@.subrange(a as int, k as int));
    assert(v@.subrange(k + 1, b as int).take(m - (k + 1)) =~= v@.subrange(k + 1, m as int));
    let name = string_of(v, a, k);
    let date = string_of(v, k + 1, m);
    match Timestamp::parse(date.as_str()) {
        Some(t) => Some(TagInfo { name, commit_time: t }),
        None => None,
    }
}

proof fn lemma_scan_failed_stays(s: Seq<char>, i: int)
    requires
        0 <= i <= s.len(),
        scan(s.take(i)).0 is None,
    ensures
        listing_tags(s) is None,
    decreases s.len() - i,
{
    if i == s.len() {
        assert(s.take(i) =~= s);
    } else {
        assert(s.take(i + 1).drop_last() =~= s.take(i));
        lemma_scan_failed_stays(s, i + 1);
    }
}

/// Characters without a newline extend the line under way.
proof fn lemma_scan_within_line(a: Seq<char>, l: Seq<char>)
    requires
        scan(a).1 == Seq::<char>::empty(),
        forall|i: int| 0 <= i < l.len() ==> l[i] != '\n',
    ensures
        scan(a + l) == (scan(a).0, l),
    decreases l.len(),
{
    if l.len() == 0 {
        assert(a + l =~= a);
    } else {
        assert((a + l).drop_last() =~= a + l.drop_last());
        assert((a + l).last() == l.last());
        lemma_scan_within_line(a, l.drop_last());
        assert(l.drop_last().push(l.last()) =~= l);
    }
}

/// One malformed line fails the whole listing, whatever the lines around it:
/// where `line` stands on a line of its own (after the start of the text or a
/// newline, and ended by a newline) and names no tag, the listing names none.
pub proof fn lemma_malformed_line_fails_listing(
    before: Seq<char>,
    line: Seq<char>,
    after: Seq<char>,
)
    requires
        before.len() == 0 || before.last() == '\n',
        forall|i: int| 0 <= i < line.len() ==> line[i] != '\n',
        line_tag(line) is None,
    ensures
        listing_tags(before + line + seq!['\n'] + after) is None,
{
    let s = before + line + seq!['\n'] + after;
    assert(scan(before).1 == Seq::<char>::empty());
    lemma_scan_within_line(before, line);
    let n = (before.len() + line.len() + 1) as int;
    assert(s.take(n).drop_last() =~= before + line);
    assert(s.take(n).last() == '\n');
    lemma_scan_failed_stays(s, n);
}

/// Reads the output of a tag listing: one tag per line, as
/// `name,commit-time`, each line possibly quoted and padded with white space.
/// Fails as a whole, with `MalformedTagData`, where any line is malformed.
pub fn parse_tag_listing(output: &str) -> (r: Result<Vec<TagInfo>, SyncError>)
    ensures
        match r {
            Ok(tags) => listing_tags(output@) == Some(models(tags@)),
            Err(e) => e == SyncError::MalformedTagData && listing_tags(output@) is None,
        },
{
    let v = chars_of(output);
    let ghost s = v@;
    let mut tags: Vec<TagInfo> = Vec::new();
    let mut start: usize = 0;
    let mut i: usize = 0;
    while i < v.len()
        invariant
            s == v@,
            s == output@,
            start <= i <= v.len(),
            scan(s.take(i as int)) == (Some(models(tags@)), s.subrange(start as int, i as int)),
        decreases v.len() - i,
    {
        assert(s.take(i + 1).drop_last() =~= s.take(i as int));
        assert(s.take(i + 1).last() == s[i as int]);
        if v[i] == '\n' {
            match parse_line(&v, start, i) {
                Some(t) => {
                    let ghost before = models(tags@);
                    tags.push(t);
                    assert(models(tags@) =~= before.push(t@));
                },
                None => {
                    proof {
                        lemma_scan_failed_stays(s, i + 1);
                    }
                    return Err(SyncError::MalformedTagData);
                },
            }
            start = i + 1;
            assert(s.subrange(start as int, start as int) =~= Seq::<char>::empty());
        } else {
            assert(s.subrange(start as int, i + 1) =~= s.subrange(start as int, i as int).push(
                s[i as int],
            ));
        }
        i += 1;
    }
    assert(s.take(i as int) =~= s);
    if start < i {
        match parse_line(&v, start, i) {
            Some(t) => {
                let ghost before = models(tags@);
                tags.push(t);
                assert(models(tags@) =~= before.push(t@));
            },
            None => {
                return Err(SyncError::MalformedTagData);
            },
        }
    }
    Ok(tags)
}

} // verus!
