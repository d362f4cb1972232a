use vstd::prelude::*;
use vstd::string::*;

verus! {

/// Character budget of one chunk.
pub const MAX_CHUNK_LEN: usize = 1000;

/// A line without the carriage return that ends it, if any.
pub open spec fn strip_cr(l: Seq<char>) -> Seq<char> {
    if l.len() > 0 && l.last() == '\r' {
        l.drop_last()
    } else {
        l
    }
}

/// Lines finished after reading `s`, and the line still open.
pub open spec fn scan_lines(s: Seq<char>) -> (Seq<Seq<char>>, Seq<char>)
    decreases s.len(),
{
    if s.len() == 0 {
        (seq![], seq![])
    } else {
        let (done, cur) = scan_lines(s.drop_last());
        if s.last() == '\n' {
            (done.push(strip_cr(cur)), seq![])
        } else {
            (done, cur.push(s.last()))
        }
    }
}

/// The lines of `s`: split at `\n`, a `\r` right before it dropped, and no
/// empty line after a final `\n`.
pub open spec fn lines_of(s: Seq<char>) -> Seq<Seq<char>> {
    let (done, cur) = scan_lines(s);
    if cur.len() > 0 {
        done.push(cur)
    } else {
        done
    }
}

/// Chunks closed after taking `lines`, and the chunk still being filled.
pub open spec fn scan_chunks(lines: Seq<Seq<char>>) -> (Seq<Seq<char>>, Seq<char>)
    decreases lines.len(),
{
    if lines.len() == 0 {
        (seq![], seq![])
    } else {
        let (done, buf) = scan_chunks(lines.drop_last());
        let l = lines.last();
        if buf.len() > 0 && buf.len() + l.len() > MAX_CHUNK_LEN {
            (done.push(buf), l)
        } else {
            (done, buf + l)
        }
    }
}

/// Lines packed in order into chunks of at most `MAX_CHUNK_LEN` characters.
pub open spec fn chunks_of_lines(lines: Seq<Seq<char>>) -> Seq<Seq<char>> {
    let (done, buf) = scan_chunks(lines);
    if buf.len() > 0 {
        done.push(buf)
    } else {
        done
    }
}

/// The chunks of a document's text.
pub open spec fn chunks_of(text: Seq<char>) -> Seq<Seq<char>> {
    chunks_of_lines(lines_of(text))
}

/// Texts joined end to end.
pub open spec fn joined(parts: Seq<Seq<char>>) -> Seq<char>
    decreases parts.len(),
{
    if parts.len() == 0 {
        seq![]
    } else {
        joined(parts.drop_last()) + parts.last()
    }
}

pub open spec fn views(v: Seq<String>) -> Seq<Seq<char>> {
    v.map_values(|s: String| s@)
}

/// Relies on String::push: appends one character.
#[verifier::external_body]
pub(crate) fn push_char(s: &mut String, c: char)
    ensures
        final(s)@ == old(s)@.push(c),
{
    s.push(c)
}

/// Splits `text` into lines as `str::lines` does.
pub fn split_lines(text: &str) -> (r: Vec<String>)
    ensures
        views(r@) == lines_of(text@),
{
    let mut lines: Vec<String> = Vec::new();
    let mut cur = String::new();
    let mut cr: bool = false;
    for c in it: text.chars()
        invariant
            it.seq() == text@,
            views(lines@) == scan_lines(text@.take(it.index() as int)).0,
            (if cr { cur@.push('\r') } else { cur@ }) == scan_lines(
                text@.take(it.index() as int),
            ).1,
            !cr ==> cur@.len() == 0 || cur@.last() != '\r',
    {
        let ghost pre = text@.take(it.index() as int);
        assert(text@.take(it.index() + 1).drop_last() == pre);
        if c == '\n' {
            proof {
                let s = scan_lines(pre).1;
                assert(strip_cr(s) == cur@);
                assert(views(lines@.push(cur)) =~= views(lines@).push(cur@));
            }
            lines.push(cur);
            cur = String::new();
            cr = false;
        } else {
            if cr {
                push_char(&mut cur, '\r');
            }
            if c == '\r' {
                cr = true;
            } else {
                push_char(&mut cur, c);
                cr = false;
            }
            assert(views(lines@) =~= scan_lines(text@.take(it.index() + 1)).0);
        }
    }
    if cr {
        push_char(&mut cur, '\r');
    }
    assert(text@.take(text@.len() as int) =~= text@);
    if cur.as_str().unicode_len() > 0 {
        lines.push(cur);
    }
    assert(views(lines@) =~= lines_of(text@));
    lines
}

/// Splits `text` into chunks: whole lines, in order, packed while a chunk
/// stays within `MAX_CHUNK_LEN` characters. A longer line is a chunk of its
/// own; no chunk is empty.
pub fn chunk_text(text: &str) -> (r: Vec<String>)
    ensures
        views(r@) == chunks_of(text@),
{
    let lines = split_lines(text);
    let mut chunks: Vec<String> = Vec::new();
    let mut buf = String::new();
    let mut buf_len: usize = 0;
    let ghost ls = lines_of(text@);
    for i in 0..lines.len()
        invariant
            views(lines@) == ls,
            views(chunks@) == scan_chunks(ls.take(i as int)).0,
            buf@ == scan_chunks(ls.take(i as int)).1,
            buf_len == buf@.len(),
    {
        let line = lines[i].as_str();
        let line_len = line.unicode_len();
        assert(ls.take(i + 1).drop_last() =~= ls.take(i as int));
        assert(line@ == ls[i as int]);
        assert(ls.take(i + 1).last() == ls[i as int]);
        assert(views(chunks@.push(buf)) =~= views(chunks@).push(buf@));
        if buf_len > 0 && (buf_len > MAX_CHUNK_LEN || line_len > MAX_CHUNK_LEN - buf_len) {
            assert(scan_chunks(ls.take(i + 1)).0 == scan_chunks(ls.take(i as int)).0.push(buf@));
            chunks.push(buf);
            buf = String::from_str(line);
            buf_len = line_len;
            assert(views(chunks@) =~= scan_chunks(ls.take(i + 1)).0);
        } else {
            buf.append(line);
            buf_len = buf_len + line_len;
        }
    }
    assert(ls.take(lines.len() as int) =~= ls);
    if buf_len > 0 {
        chunks.push(buf);
    }
    assert(views(chunks@) =~= chunks_of(text@));
    chunks
}

/// What a chunk may be: within the budget, or a single line of its own.
pub open spec fn fits_or_lone_line(c: Seq<char>, lines: Seq<Seq<char>>) -> bool {
    c.len() <= MAX_CHUNK_LEN || lines.contains(c)
}

proof fn lemma_scan_chunks_bound(lines: Seq<Seq<char>>)
    ensures
        forall|j: int|
            0 <= j < scan_chunks(lines).0.len() ==> #[trigger] scan_chunks(lines).0[j].len() > 0
                && fits_or_lone_line(scan_chunks(lines).0[j], lines),
        fits_or_lone_line(scan_chunks(lines).1, lines),
    decreases lines.len(),
{
    if lines.len() > 0 {
        let pre = lines.drop_last();
        lemma_scan_chunks_bound(pre);
        let (done, buf) = scan_chunks(pre);
        let l = lines.last();
        assert forall|c: Seq<char>| pre.contains(c) implies lines.contains(c) by {
            let j = choose|j: int| 0 <= j < pre.len() && pre[j] == c;
            assert(lines[j] == c);
        }
        assert(lines[lines.len() - 1] == l);
        if !(buf.len() > 0 && buf.len() + l.len() > MAX_CHUNK_LEN) && buf.len() == 0 {
            assert(buf + l =~= l);
        }
    }
}

/// Every chunk of `text` is non-empty and holds at most `MAX_CHUNK_LEN`
/// characters, unless it is one line of `text` that alone is longer.
pub proof fn lemma_chunk_length_bound(text: Seq<char>)
    ensures
        forall|j: int|
            0 <= j < chunks_of(text).len() ==> #[trigger] chunks_of(text)[j].len() > 0 && (
            chunks_of(text)[j].len() <= MAX_CHUNK_LEN || lines_of(text).contains(
                chunks_of(text)[j],
            )),
{
    lemma_scan_chunks_bound(lines_of(text));
}

proof fn lemma_scan_chunks_joined(lines: Seq<Seq<char>>)
    ensures
        joined(scan_chunks(lines).0) + scan_chunks(lines).1 == joined(lines),
    decreases lines.len(),
{
    if lines.len() > 0 {
        let pre = lines.drop_last();
        lemma_scan_chunks_joined(pre);
        let (done, buf) = scan_chunks(pre);
        let l = lines.last();
        if buf.len() > 0 && buf.len() + l.len() > MAX_CHUNK_LEN {
            assert(done.push(buf).drop_last() =~= done);
        }
        assert(joined(done) + buf + l =~= joined(done) + (buf + l));
    }
}

/// Joining the chunks of `text` without separators gives its lines joined
/// the same way.
pub proof fn lemma_chunks_rejoin(text: Seq<char>)
    ensures
        joined(chunks_of(text)) == joined(lines_of(text)),
{
    let lines = lines_of(text);
    lemma_scan_chunks_joined(lines);
    let (done, buf) = scan_chunks(lines);
    if buf.len() > 0 {
        assert(done.push(buf).drop_last() =~= done);
    } else {
        assert(joined(done) + buf =~= joined(done));
    }
}

} // verus!
