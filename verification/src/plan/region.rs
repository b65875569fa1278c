//! A managed region: the delimited span bx owns inside a file the user writes.
//!
//! ```text
//! # >>> bx >>>
//! ...bx's lines...
//! # <<< bx <<<
//! ```
//!
//! The delimiters are whole lines, spelled with the target's comment
//! character, and a file holds at most one region. Everything outside it is the
//! user's and is carried through byte for byte: [`splice`] replaces the region
//! in place, or appends one to a file that has none, and never touches another
//! byte. A file whose delimiters cannot be read as one region is damaged, and
//! is left for the user rather than guessed at.
//!
//! This is only the grammar. What bx may do to a region is the plan's to
//! decide, against the ledger.

use crate::text::{lemma_ascii_in_encoding, push_bytes, push_char, same_bytes, NEWLINE};
use std::ops::Range;
use vstd::prelude::*;
use vstd::slice::slice_subrange;
use vstd::utf8::*;

verus! {

/// Where the line that holds position `i` ends: its newline, or the end of
/// the bytes.
pub open spec fn line_end(file: Seq<u8>, i: int) -> int
    decreases file.len() - i,
{
    if i >= file.len() {
        file.len() as int
    } else if file[i] == NEWLINE {
        i
    } else {
        line_end(file, i + 1)
    }
}

/// Just past the line that holds position `i`, its newline included.
pub open spec fn after_line(file: Seq<u8>, i: int) -> int {
    if line_end(file, i) < file.len() {
        line_end(file, i) + 1
    } else {
        file.len() as int
    }
}

/// Whether a line of `file` starts at `i`.
pub open spec fn starts_line(file: Seq<u8>, i: int) -> bool {
    0 <= i < file.len() && (i == 0 || file[i - 1] == NEWLINE)
}

/// Whether a line of `file` starts at `i` and is `text`, its newline aside.
pub open spec fn is_mark(file: Seq<u8>, text: Seq<u8>, i: int) -> bool {
    starts_line(file, i) && file.subrange(i, line_end(file, i)) == text
}

/// Whether no line of `file` is `text`.
pub open spec fn no_mark(file: Seq<u8>, text: Seq<u8>) -> bool {
    forall|i: int| !is_mark(file, text, i)
}

/// Whether the line at `i`, and no other line of `file`, is `text`.
pub open spec fn only_mark(file: Seq<u8>, text: Seq<u8>, i: int) -> bool {
    is_mark(file, text, i) && forall|j: int| is_mark(file, text, j) ==> j == i
}

/// The line a region opens with.
pub open spec fn opening(comment: char) -> Seq<char> {
    seq![comment] + " >>> bx >>>"@
}

/// The line a region closes with.
pub open spec fn closing(comment: char) -> Seq<char> {
    seq![comment] + " <<< bx <<<"@
}

/// The line a region opens with.
pub fn begin(comment: char) -> (r: String)
    ensures
        r@ == opening(comment),
{
    let mut out = String::new();
    push_char(&mut out, comment);
    assert(out@ =~= seq![comment]);
    out.append(" >>> bx >>>");
    out
}

/// The line a region closes with.
pub fn end(comment: char) -> (r: String)
    ensures
        r@ == closing(comment),
{
    let mut out = String::new();
    push_char(&mut out, comment);
    assert(out@ =~= seq![comment]);
    out.append(" <<< bx <<<");
    out
}

/// What `bytes` need to end in a newline: nothing, where they are empty or
/// already do.
pub open spec fn line_break(bytes: Seq<u8>) -> Seq<u8> {
    if bytes.len() > 0 && bytes.last() != NEWLINE {
        seq![NEWLINE]
    } else {
        Seq::empty()
    }
}

/// The bytes of the region that holds `body`.
pub open spec fn region(comment: char, body: Seq<u8>) -> Seq<u8> {
    encode_utf8(opening(comment)) + seq![NEWLINE] + body + line_break(body) + encode_utf8(
        closing(comment),
    ) + seq![NEWLINE]
}

fn push_line_break(out: &mut Vec<u8>, bytes: &[u8])
    ensures
        final(out)@ == old(out)@ + line_break(bytes@),
{
    if bytes.len() > 0 && bytes[bytes.len() - 1] != NEWLINE {
        out.push(NEWLINE);
    }
    assert(out@ =~= old(out)@ + line_break(bytes@));
}

/// The region holding `body`, delimiters included.
///
/// `body` gains a final newline when it lacks one, so the closing delimiter is
/// always a line of its own.
pub fn block(comment: char, body: &[u8]) -> (r: Vec<u8>)
    ensures
        r@ == region(comment, body@),
{
    let mut out: Vec<u8> = Vec::new();
    push_bytes(&mut out, begin(comment).as_str().as_bytes());
    out.push(NEWLINE);
    push_bytes(&mut out, body);
    push_line_break(&mut out, body);
    push_bytes(&mut out, end(comment).as_str().as_bytes());
    out.push(NEWLINE);
    assert(out@ =~= region(comment, body@));
    out
}

/// Where the region is in a file.
#[derive(Debug, PartialEq, Eq)]
pub enum Found {
    /// The file holds no delimiter.
    Absent,
    /// Exactly one region, spanning these bytes: its opening delimiter's first
    /// byte to just past its closing delimiter's line end.
    At(Range<usize>),
    /// Delimiters that do not make exactly one region, and why.
    Damaged(&'static str),
}

/// What a file's delimiters say.
pub ghost enum Reading {
    Absent,
    At { start: int, end: int },
    Damaged { why: Seq<char> },
}

impl View for Found {
    type V = Reading;

    open spec fn view(&self) -> Reading {
        match *self {
            Found::Absent => Reading::Absent,
            Found::At(span) => Reading::At { start: span.start as int, end: span.end as int },
            Found::Damaged(why) => Reading::Damaged { why: why@ },
        }
    }
}

/// Where the one line of `file` that is `text` starts, when there is one.
pub open spec fn mark(file: Seq<u8>, text: Seq<u8>) -> int {
    choose|i: int| is_mark(file, text, i)
}

/// How the delimiters of `file` read: none at all, one opening line before one
/// closing line, or damage.
pub open spec fn reading(file: Seq<u8>, comment: char) -> Reading {
    let open = encode_utf8(opening(comment));
    let close = encode_utf8(closing(comment));
    let start = mark(file, open);
    let end = after_line(file, mark(file, close));
    if no_mark(file, open) && no_mark(file, close) {
        Reading::Absent
    } else if no_mark(file, open) {
        Reading::Damaged { why: "it has a closing delimiter and no opening one"@ }
    } else if no_mark(file, close) {
        Reading::Damaged { why: "it has an opening delimiter and no closing one"@ }
    } else if !only_mark(file, open, start) || !only_mark(file, close, mark(file, close)) {
        Reading::Damaged { why: "it has more than one opening or closing delimiter"@ }
    } else if start < end {
        Reading::At { start, end }
    } else {
        Reading::Damaged { why: "its closing delimiter comes before its opening one"@ }
    }
}

proof fn lemma_line_end(file: Seq<u8>, i: int)
    requires
        0 <= i,
    ensures
        i <= file.len() ==> i <= line_end(file, i) <= file.len(),
        i < file.len() && line_end(file, i) < file.len() ==> file[line_end(file, i)] == NEWLINE,
        forall|k: int| i <= k < line_end(file, i) && k < file.len() ==> file[k] != NEWLINE,
    decreases file.len() - i,
{
    if i < file.len() && file[i] != NEWLINE {
        lemma_line_end(file, i + 1);
    }
}

/// The end of the line is the one place that has no newline before it and is a
/// newline or the end of the bytes.
proof fn lemma_line_end_is(file: Seq<u8>, i: int, e: int)
    requires
        0 <= i <= e <= file.len(),
        e < file.len() ==> file[e] == NEWLINE,
        forall|k: int| i <= k < e ==> file[k] != NEWLINE,
    ensures
        line_end(file, i) == e,
    decreases e - i,
{
    if i < e {
        lemma_line_end_is(file, i + 1, e);
    }
}

/// How often a line occurred so far: none, once at the first place seen, or
/// more often.
spec fn seen(file: Seq<u8>, text: Seq<u8>, at: int, count: int, first: int) -> bool {
    &&& 0 <= count <= 2
    &&& count == 0 ==> forall|j: int| j < at ==> !is_mark(file, text, j)
    &&& count == 1 ==> first < at && is_mark(file, text, first) && forall|j: int|
        j < at && is_mark(file, text, j) ==> j == first
    &&& count == 2 ==> exists|j: int, k: int| is_mark(file, text, j) && is_mark(file, text, k) && j < k
}

proof fn lemma_seen_all(file: Seq<u8>, text: Seq<u8>, count: int, first: int)
    requires
        seen(file, text, file.len() as int, count, first),
    ensures
        count == 0 <==> no_mark(file, text),
        count == 1 ==> only_mark(file, text, first) && mark(file, text) == first,
        count == 2 ==> !only_mark(file, text, mark(file, text)),
{
    assert forall|j: int| is_mark(file, text, j) implies j < file.len() by {}
    if count == 1 {
        assert(is_mark(file, text, first));
        assert(!no_mark(file, text));
    }
    if count == 2 {
        let (j, k) = choose|j: int, k: int|
            is_mark(file, text, j) && is_mark(file, text, k) && j < k;
        assert(is_mark(file, text, j) && is_mark(file, text, k));
    }
}

/// Find the region in `file`.
pub fn find(file: &[u8], comment: char) -> (r: Found)
    ensures
        r@ == reading(file@, comment),
{
    let open = begin(comment);
    let close = end(comment);
    let open_bytes = open.as_str().as_bytes();
    let close_bytes = close.as_str().as_bytes();
    let mut opens: usize = 0;
    let mut opened: usize = 0;
    let mut closes: usize = 0;
    let mut closed: usize = 0;
    let mut closed_end: usize = 0;
    let mut at: usize = 0;
    proof {
        lemma_delimiters_differ(comment);
    }
    while at < file.len()
        invariant
            at <= file.len(),
            at < file.len() ==> starts_line(file@, at as int),
            open_bytes@ == encode_utf8(opening(comment)),
            close_bytes@ == encode_utf8(closing(comment)),
            open_bytes@ != close_bytes@,
            seen(file@, open_bytes@, at as int, opens as int, opened as int),
            seen(file@, close_bytes@, at as int, closes as int, closed as int),
            closes == 1 ==> closed_end == after_line(file@, closed as int),
        decreases file.len() - at,
    {
        let mut stop: usize = at;
        while stop < file.len() && file[stop] != NEWLINE
            invariant
                at <= stop <= file.len(),
                forall|k: int| at <= k < stop ==> file@[k] != NEWLINE,
            decreases file.len() - stop,
        {
            stop = stop + 1;
        }
        proof {
            lemma_line_end_is(file@, at as int, stop as int);
        }
        let next: usize = if stop < file.len() { stop + 1 } else { stop };
        assert(next == after_line(file@, at as int));
        let line = slice_subrange(file, at, stop);
        assert forall|j: int| at < j < next implies !starts_line(file@, j) by {
            assert(file@[j - 1] != NEWLINE);
        }
        if same_bytes(line, open_bytes) {
            assert(is_mark(file@, open_bytes@, at as int));
            if opens == 0 {
                opens = 1;
                opened = at;
            } else {
                assert(opens == 1 ==> is_mark(file@, open_bytes@, opened as int));
                opens = 2;
            }
        } else if same_bytes(line, close_bytes) {
            assert(is_mark(file@, close_bytes@, at as int));
            if closes == 0 {
                closes = 1;
                closed = at;
                closed_end = next;
            } else {
                assert(closes == 1 ==> is_mark(file@, close_bytes@, closed as int));
                closes = 2;
            }
        }
        at = next;
    }
    proof {
        lemma_seen_all(file@, open_bytes@, opens as int, opened as int);
        lemma_seen_all(file@, close_bytes@, closes as int, closed as int);
    }
    if opens == 0 && closes == 0 {
        Found::Absent
    } else if opens == 0 {
        Found::Damaged("it has a closing delimiter and no opening one")
    } else if closes == 0 {
        Found::Damaged("it has an opening delimiter and no closing one")
    } else if opens == 2 || closes == 2 {
        Found::Damaged("it has more than one opening or closing delimiter")
    } else if opened < closed_end {
        Found::At(opened..closed_end)
    } else {
        Found::Damaged("its closing delimiter comes before its opening one")
    }
}

proof fn lemma_delimiters_differ(comment: char)
    ensures
        encode_utf8(opening(comment)) != encode_utf8(closing(comment)),
{
    reveal_strlit(" >>> bx >>>");
    reveal_strlit(" <<< bx <<<");
    encode_utf8_decode_utf8(opening(comment));
    encode_utf8_decode_utf8(closing(comment));
    assert(opening(comment)[2] == '>');
    assert(closing(comment)[2] == '<');
}

/// `file` with its region holding `body`, where its delimiters read as one
/// region or none.
pub open spec fn spliced(file: Seq<u8>, comment: char, body: Seq<u8>) -> Seq<u8> {
    match reading(file, comment) {
        Reading::At { start, end } => file.subrange(0, start) + region(comment, body)
            + file.subrange(end, file.len() as int),
        _ => file + line_break(file) + region(comment, body),
    }
}

/// `file` with its region holding `body`: replaced in place when it has one,
/// appended when it has none, and the whole file when there is no file.
///
/// # Errors
///
/// The [`Found::Damaged`] reason when `file`'s delimiters do not make one
/// region.
pub fn splice(file: Option<&[u8]>, comment: char, body: &[u8]) -> (r: Result<Vec<u8>, &'static str>)
    ensures
        match file {
            None => r is Ok && r->Ok_0@ == region(comment, body@),
            Some(file) => match reading(file@, comment) {
                Reading::Damaged { why } => r is Err && r->Err_0@ == why,
                _ => r is Ok && r->Ok_0@ == spliced(file@, comment, body@),
            },
        },
{
    let mut out: Vec<u8> = Vec::new();
    let region = block(comment, body);
    let file = match file {
        None => {
            return Ok(region);
        },
        Some(file) => file,
    };
    match find(file, comment) {
        Found::Absent => {
            push_bytes(&mut out, file);
            push_line_break(&mut out, file);
            push_bytes(&mut out, region.as_slice());
            assert(out@ =~= spliced(file@, comment, body@));
            Ok(out)
        },
        Found::At(span) => {
            proof {
                let close = encode_utf8(closing(comment));
                lemma_line_end(file@, mark(file@, close));
            }
            push_bytes(&mut out, slice_subrange(file, 0, span.start));
            push_bytes(&mut out, region.as_slice());
            push_bytes(&mut out, slice_subrange(file, span.end, file.len()));
            assert(out@ =~= spliced(file@, comment, body@));
            Ok(out)
        },
        Found::Damaged(why) => Err(why),
    }
}

/// Whether `bytes` end where a line may start: they are empty, or their last
/// byte is a newline.
spec fn ends_line(bytes: Seq<u8>) -> bool {
    bytes.len() == 0 || bytes.last() == NEWLINE
}

/// The lines of two texts put together are the lines of the one and then the
/// lines of the other, where the first ends a line.
proof fn lemma_mark_concat(x: Seq<u8>, y: Seq<u8>, text: Seq<u8>, i: int)
    requires
        ends_line(x),
    ensures
        i < x.len() ==> is_mark(x + y, text, i) == is_mark(x, text, i),
        i >= x.len() ==> is_mark(x + y, text, i) == is_mark(y, text, i - x.len()),
{
    let both = x + y;
    if 0 <= i < x.len() {
        lemma_line_end(x, i);
        let e = line_end(x, i);
        assert(e < x.len()) by {
            if e == x.len() {
                assert(x[x.len() - 1] == NEWLINE);
            }
        }
        lemma_line_end_is(both, i, e);
        assert(both.subrange(i, e) =~= x.subrange(i, e));
        assert(starts_line(both, i) == starts_line(x, i));
    } else if x.len() <= i < both.len() {
        let k = i - x.len();
        lemma_line_end(y, k);
        let e = line_end(y, k);
        lemma_line_end_is(both, i, e + x.len());
        assert(both.subrange(i, e + x.len()) =~= y.subrange(k, e));
        assert(starts_line(both, i) == starts_line(y, k));
    }
}

/// The newline that ends a last line adds no line and changes none.
proof fn lemma_mark_line_break(x: Seq<u8>, text: Seq<u8>, i: int)
    ensures
        is_mark(x + line_break(x), text, i) == is_mark(x, text, i),
{
    let both = x + line_break(x);
    if 0 <= i < x.len() {
        lemma_line_end(x, i);
        let e = line_end(x, i);
        lemma_line_end_is(both, i, e);
        assert(both.subrange(i, e) =~= x.subrange(i, e));
    } else if i >= x.len() && line_break(x).len() == 1 {
        assert(both[x.len() - 1] == x.last());
    }
}

/// A line by itself is its one line.
proof fn lemma_mark_line(line: Seq<u8>, text: Seq<u8>, i: int)
    requires
        !line.contains(NEWLINE),
    ensures
        is_mark(line.push(NEWLINE), text, i) <==> i == 0 && line == text,
{
    let whole = line.push(NEWLINE);
    lemma_line_end_is(whole, 0, line.len() as int);
    assert(whole.subrange(0, line.len() as int) =~= line);
    if 0 < i < whole.len() {
        assert(whole[i - 1] == line[i - 1]);
        assert(line.contains(line[i - 1]));
    }
}

proof fn lemma_delimiter_is_a_line(comment: char)
    requires
        comment != '\n',
    ensures
        !encode_utf8(opening(comment)).contains(NEWLINE),
        !encode_utf8(closing(comment)).contains(NEWLINE),
{
    reveal_strlit(" >>> bx >>>");
    reveal_strlit(" <<< bx <<<");
    lemma_ascii_in_encoding(opening(comment), '\n');
    lemma_ascii_in_encoding(closing(comment), '\n');
    assert(!opening(comment).contains('\n'));
    assert(!closing(comment).contains('\n'));
}

/// The pieces of a file with a region: what stands before it, the region, and
/// what stands after it.
proof fn lemma_pieces(a: Seq<u8>, comment: char, body: Seq<u8>, z: Seq<u8>)
    requires
        comment != '\n',
        ends_line(a),
        no_mark(a, encode_utf8(opening(comment))),
        no_mark(a, encode_utf8(closing(comment))),
        no_mark(z, encode_utf8(opening(comment))),
        no_mark(z, encode_utf8(closing(comment))),
        no_mark(body, encode_utf8(opening(comment))),
        no_mark(body, encode_utf8(closing(comment))),
    ensures
        reading(a + region(comment, body) + z, comment) == (Reading::At {
            start: a.len() as int,
            end: (a.len() + region(comment, body).len()) as int,
        }),
{
    let o = encode_utf8(opening(comment));
    let c = encode_utf8(closing(comment));
    let ol = o.push(NEWLINE);
    let cl = c.push(NEWLINE);
    let inner = body + line_break(body);
    let tail = cl + z;
    let rest = inner + tail;
    let from = ol + rest;
    let whole = a + region(comment, body) + z;
    assert(whole =~= a + from);
    assert(inner.len() == 0 || inner.last() == NEWLINE);
    lemma_delimiters_differ(comment);
    lemma_delimiter_is_a_line(comment);
    let at = a.len() as int;
    let k = (a.len() + ol.len() + inner.len()) as int;
    assert forall|t: Seq<u8>, i: int| t == o || t == c implies #[trigger] is_mark(whole, t, i) == ((
    t == o && i == at) || (t == c && i == k)) by {
        lemma_mark_concat(a, from, t, i);
        if i >= a.len() {
            let i1 = i - a.len();
            lemma_mark_concat(ol, rest, t, i1);
            lemma_mark_line(o, t, i1);
            if i1 >= ol.len() {
                let i2 = i1 - ol.len();
                lemma_mark_concat(inner, tail, t, i2);
                lemma_mark_line_break(body, t, i2);
                if i2 >= inner.len() {
                    let i3 = i2 - inner.len();
                    lemma_mark_concat(cl, z, t, i3);
                    lemma_mark_line(c, t, i3);
                } else {
                    assert(!is_mark(body, t, i2));
                }
            }
        }
    }
    assert(is_mark(whole, o, at));
    assert(is_mark(whole, c, k));
    assert(mark(whole, o) == at);
    assert(mark(whole, c) == k);
    assert(whole.subrange(k, k + c.len()) =~= c);
    assert forall|j: int| k <= j < k + c.len() implies whole[j] != NEWLINE by {
        assert(whole[j] == c[j - k]);
        assert(c.contains(c[j - k]));
    }
    lemma_line_end_is(whole, k, k + c.len());
}

/// What stands before and after a region holds no delimiter.
proof fn lemma_around(file: Seq<u8>, comment: char)
    requires
        reading(file, comment) is At,
    ensures
        ({
            let start = reading(file, comment)->start;
            let end = reading(file, comment)->end;
            let before = file.subrange(0, start);
            let after = file.subrange(end, file.len() as int);
            &&& 0 <= start < end <= file.len()
            &&& ends_line(before)
            &&& no_mark(before, encode_utf8(opening(comment)))
            &&& no_mark(before, encode_utf8(closing(comment)))
            &&& no_mark(after, encode_utf8(opening(comment)))
            &&& no_mark(after, encode_utf8(closing(comment)))
        }),
{
    let o = encode_utf8(opening(comment));
    let c = encode_utf8(closing(comment));
    let start = mark(file, o);
    let k = mark(file, c);
    let end = after_line(file, k);
    lemma_line_end(file, k);
    let before = file.subrange(0, start);
    let from = file.subrange(start, file.len() as int);
    let upto = file.subrange(0, end);
    let after = file.subrange(end, file.len() as int);
    assert(file =~= before + from);
    assert(file =~= upto + after);
    assert(k >= start) by {
        if k < start {
            assert(file[start - 1] == NEWLINE);
            assert(line_end(file, k) <= start - 1);
        }
    }
    assert forall|t: Seq<u8>, i: int| t == o || t == c implies !#[trigger] is_mark(before, t, i) by {
        lemma_mark_concat(before, from, t, i);
        if is_mark(before, t, i) {
            assert(is_mark(file, t, i));
        }
    }
    assert forall|t: Seq<u8>, i: int| t == o || t == c implies !#[trigger] is_mark(after, t, i) by {
        if is_mark(after, t, i) {
            assert(end < file.len());
            assert(ends_line(upto));
            lemma_mark_concat(upto, after, t, i + end);
            assert(is_mark(file, t, i + end));
        }
    }
}

/// Writing a region and then reading the file finds that region: it starts
/// where the file's region stood, or after the user's last line, and ends with
/// its own last byte.
///
/// A body that itself holds a delimiter line, and a newline as the comment
/// character, are left out: neither makes one region.
pub proof fn a_spliced_region_is_found(file: Seq<u8>, comment: char, body: Seq<u8>)
    requires
        reading(file, comment) !is Damaged,
        comment != '\n',
        no_mark(body, encode_utf8(opening(comment))),
        no_mark(body, encode_utf8(closing(comment))),
    ensures
        reading(spliced(file, comment, body), comment) == (Reading::At {
            start: region_start(file, comment),
            end: region_start(file, comment) + region(comment, body).len(),
        }),
{
    let o = encode_utf8(opening(comment));
    let c = encode_utf8(closing(comment));
    if reading(file, comment) is At {
        lemma_around(file, comment);
        let start = reading(file, comment)->start;
        let end = reading(file, comment)->end;
        lemma_pieces(file.subrange(0, start), comment, body, file.subrange(end, file.len() as int));
    } else {
        let a = file + line_break(file);
        assert forall|t: Seq<u8>, i: int| t == o || t == c implies !#[trigger] is_mark(a, t, i) by {
            lemma_mark_line_break(file, t, i);
            assert(!is_mark(file, t, i));
        }
        lemma_pieces(a, comment, body, Seq::empty());
        assert(spliced(file, comment, body) =~= a + region(comment, body) + Seq::<u8>::empty());
    }
}

/// Where the region of `file` starts, or would start were it written.
pub open spec fn region_start(file: Seq<u8>, comment: char) -> int {
    match reading(file, comment) {
        Reading::At { start, end } => start,
        _ => (file.len() + line_break(file).len()) as int,
    }
}

/// Writing a region over a region bx wrote is writing it in the first place:
/// what bx wrote before leaves no trace, and nothing around it moves. With the
/// same body twice it changes nothing.
pub proof fn a_second_splice_replaces_the_first(
    file: Seq<u8>,
    comment: char,
    first: Seq<u8>,
    second: Seq<u8>,
)
    requires
        reading(file, comment) !is Damaged,
        comment != '\n',
        no_mark(first, encode_utf8(opening(comment))),
        no_mark(first, encode_utf8(closing(comment))),
    ensures
        spliced(spliced(file, comment, first), comment, second) == spliced(file, comment, second),
{
    a_spliced_region_is_found(file, comment, first);
    if reading(file, comment) is At {
        lemma_around(file, comment);
    }
    assert(spliced(spliced(file, comment, first), comment, second) =~= spliced(
        file,
        comment,
        second,
    ));
}

/// Every byte the user wrote is carried through: what stands before the region
/// and what stands after it are the same bytes in the same order, and a file
/// without a region is followed by it whole.
pub proof fn a_splice_keeps_what_is_around_it(file: Seq<u8>, comment: char, body: Seq<u8>)
    requires
        reading(file, comment) !is Damaged,
    ensures
        match reading(file, comment) {
            Reading::At { start, end } => {
                let out = spliced(file, comment, body);
                let after = start + region(comment, body).len();
                &&& out.subrange(0, start) == file.subrange(0, start)
                &&& out.subrange(after, out.len() as int) == file.subrange(end, file.len() as int)
            },
            _ => file.is_prefix_of(spliced(file, comment, body)),
        },
{
    if reading(file, comment) is At {
        lemma_around(file, comment);
        let start = reading(file, comment)->start;
        let end = reading(file, comment)->end;
        let out = spliced(file, comment, body);
        assert(out.subrange(0, start) =~= file.subrange(0, start));
        assert(out.subrange(start + region(comment, body).len(), out.len() as int)
            =~= file.subrange(end, file.len() as int));
    } else {
        assert(spliced(file, comment, body).subrange(0, file.len() as int) =~= file);
    }
}

/// A file that holds nothing has no region, and takes one whole.
pub proof fn lemma_empty_file(comment: char, body: Seq<u8>)
    ensures
        reading(Seq::empty(), comment) !is Damaged,
        spliced(Seq::empty(), comment, body) == region(comment, body),
{
    let none = Seq::<u8>::empty();
    assert(no_mark(none, encode_utf8(opening(comment))));
    assert(none + line_break(none) + region(comment, body) =~= region(comment, body));
}

/// A line of a file is a delimiter exactly where it starts a line, has its very
/// bytes, and ends there: at a newline or at the end of the file.
pub proof fn a_delimiter_is_a_whole_line(file: Seq<u8>, text: Seq<u8>, i: int)
    ensures
        is_mark(file, text, i) <==> {
            &&& 0 <= i < file.len()
            &&& i == 0 || file[i - 1] == 10
            &&& i + text.len() <= file.len()
            &&& file.subrange(i, i + text.len()) == text
            &&& i + text.len() == file.len() || file[(i + text.len()) as int] == 10
            &&& forall|k: int| i <= k < i + text.len() ==> file[k] != 10
        },
{
    if 0 <= i < file.len() {
        lemma_line_end(file, i);
        let e = line_end(file, i);
        if is_mark(file, text, i) {
            assert(file.subrange(i, e).len() == e - i);
        } else if i + text.len() <= file.len() && file.subrange(i, i + text.len()) == text && (i
            + text.len() == file.len() || file[(i + text.len()) as int] == 10) && (forall|k: int|
            i <= k < i + text.len() ==> file[k] != 10) {
            lemma_line_end_is(file, i, (i + text.len()) as int);
        }
    }
}

/// How a file's delimiters read, in every case: none of either is no region; one
/// opening line and one closing line after it are the region, from the first
/// byte of the one to past the line end of the other; anything else is damage.
pub proof fn a_region_is_one_opening_and_one_closing_line(file: Seq<u8>, comment: char)
    ensures
        ({
            let open = encode_utf8(seq![comment] + " >>> bx >>>"@);
            let close = encode_utf8(seq![comment] + " <<< bx <<<"@);
            let found = reading(file, comment);
            &&& found is Absent <==> (forall|i: int| !is_mark(file, open, i)) && (forall|i: int|
                !is_mark(file, close, i))
            &&& found matches Reading::At { start, end } ==> exists|k: int|
                {
                    &&& is_mark(file, open, start)
                    &&& forall|j: int| is_mark(file, open, j) ==> j == start
                    &&& #[trigger] is_mark(file, close, k)
                    &&& forall|j: int| is_mark(file, close, j) ==> j == k
                    &&& start < k < end <= file.len()
                    &&& end == k + close.len() || (end == k + close.len() + 1 && file[end - 1]
                        == 10)
                    &&& end == file.len() || file[end - 1] == 10
                }
            &&& forall|i: int, k: int|
                #![trigger is_mark(file, open, i), is_mark(file, close, k)]
                is_mark(file, open, i) && is_mark(file, close, k) && i < k && (forall|j: int|
                    is_mark(file, open, j) ==> j == i) && (forall|j: int|
                    is_mark(file, close, j) ==> j == k) ==> found is At && found->start == i
        }),
{
    let open = encode_utf8(opening(comment));
    let close = encode_utf8(closing(comment));
    let found = reading(file, comment);
    lemma_delimiters_differ(comment);
    if let Reading::At { start, end } = found {
        let k = mark(file, close);
        lemma_around(file, comment);
        assert(is_mark(file, open, start));
        assert(is_mark(file, close, k));
        a_delimiter_is_a_whole_line(file, close, k);
        a_delimiter_is_a_whole_line(file, open, start);
        lemma_line_end_is(file, k, (k + close.len()) as int);
        if k == start {
            assert(open =~= close) by {
                assert(file.subrange(k, line_end(file, k)) == close);
                assert(file.subrange(start, line_end(file, start)) == open);
            }
        }
        assert(k > start) by {
            if k < start {
                assert(file[start - 1] == NEWLINE);
                assert(end <= start);
            }
        }
    }
    assert forall|i: int, k: int|
        #![trigger is_mark(file, open, i), is_mark(file, close, k)]
        is_mark(file, open, i) && is_mark(file, close, k) && i < k && (forall|j: int|
            is_mark(file, open, j) ==> j == i) && (forall|j: int|
            is_mark(file, close, j) ==> j == k) implies found is At && found->start == i by {
        assert(mark(file, open) == i);
        assert(mark(file, close) == k);
        assert(only_mark(file, open, i));
        assert(only_mark(file, close, k));
        lemma_line_end(file, k);
    }
}

/// A region is its opening line, the body, ending in a newline, and its closing
/// line; putting one into a file with none follows what is there, ended by a
/// newline, and putting one in the place of another leaves what is around it.
pub proof fn a_region_holds_its_body_between_its_delimiters(
    file: Seq<u8>,
    comment: char,
    body: Seq<u8>,
)
    ensures
        ({
            let open = encode_utf8(seq![comment] + " >>> bx >>>"@);
            let close = encode_utf8(seq![comment] + " <<< bx <<<"@);
            let whole = region(comment, body);
            let ended = |bytes: Seq<u8>|
                if bytes.len() > 0 && bytes[bytes.len() - 1] != 10 {
                    bytes + seq![10u8]
                } else {
                    bytes
                };
            &&& whole == open + seq![10u8] + ended(body) + close + seq![10u8]
            &&& reading(file, comment) is Absent ==> spliced(file, comment, body) == ended(file)
                + whole
            &&& reading(file, comment) matches Reading::At { start, end } ==> spliced(
                file,
                comment,
                body,
            ) == file.subrange(0, start) + whole + file.subrange(end, file.len() as int)
        }),
{
    let open = encode_utf8(opening(comment));
    let close = encode_utf8(closing(comment));
    let ended = |bytes: Seq<u8>|
        if bytes.len() > 0 && bytes[bytes.len() - 1] != 10 {
            bytes + seq![10u8]
        } else {
            bytes
        };
    assert(region(comment, body) =~= open + seq![10u8] + ended(body) + close + seq![10u8]);
    if reading(file, comment) is Absent {
        assert(spliced(file, comment, body) =~= ended(file) + region(comment, body));
    }
}

/// Damage is said for what it is: a delimiter without the other, more than one
/// of either, or the closing one before the opening one.
pub proof fn damage_is_said_for_what_it_is(file: Seq<u8>, comment: char, i: int, k: int)
    ensures
        ({
            let open = encode_utf8(seq![comment] + " >>> bx >>>"@);
            let close = encode_utf8(seq![comment] + " <<< bx <<<"@);
            let found = reading(file, comment);
            let opened = is_mark(file, open, i);
            let closed = is_mark(file, close, k);
            &&& closed && (forall|j: int| !is_mark(file, open, j)) ==> found == (Reading::Damaged {
                why: "it has a closing delimiter and no opening one"@,
            })
            &&& opened && (forall|j: int| !is_mark(file, close, j)) ==> found == (Reading::Damaged {
                why: "it has an opening delimiter and no closing one"@,
            })
            &&& opened && closed && ((exists|j: int| j != i && is_mark(file, open, j)) || (exists|
                j: int,
            |
                j != k && is_mark(file, close, j))) ==> found == (Reading::Damaged {
                why: "it has more than one opening or closing delimiter"@,
            })
            &&& opened && closed && k < i && (forall|j: int| is_mark(file, open, j) ==> j == i) && (
            forall|j: int| is_mark(file, close, j) ==> j == k) ==> found == (Reading::Damaged {
                why: "its closing delimiter comes before its opening one"@,
            })
        }),
{
    let open = encode_utf8(opening(comment));
    let close = encode_utf8(closing(comment));
    assert(open == encode_utf8(seq![comment] + " >>> bx >>>"@));
    assert(close == encode_utf8(seq![comment] + " <<< bx <<<"@));
    if is_mark(file, open, i) && is_mark(file, close, k) {
        assert(is_mark(file, open, mark(file, open)));
        assert(is_mark(file, close, mark(file, close)));
        if k < i && (forall|j: int| is_mark(file, open, j) ==> j == i) && (forall|j: int|
            is_mark(file, close, j) ==> j == k) {
            lemma_line_end(file, k);
            assert(file[i - 1] == NEWLINE);
            assert(after_line(file, k) <= i);
        }
    }
}

} // verus!
