use vstd::prelude::*;
use vstd::string::*;
use crate::chat_interface::{is_white, is_white_char};
use crate::text::{push_char, views};

verus! {

/// Words finished after reading `s`, and the word still open.
pub open spec fn scan_words(s: Seq<char>) -> (Seq<Seq<char>>, Seq<char>)
    decreases s.len(),
{
    if s.len() == 0 {
        (seq![], seq![])
    } else {
        let (done, cur) = scan_words(s.drop_last());
        if is_white(s.last()) {
            (flush(done, cur), seq![])
        } else {
            (done, cur.push(s.last()))
        }
    }
}

/// The words of `s`: its longest runs of characters that are not white
/// space, in order.
pub open spec fn words_of(s: Seq<char>) -> Seq<Seq<char>> {
    let (done, cur) = scan_words(s);
    flush(done, cur)
}

/// `out` with `cur` added when `cur` is not empty.
pub open spec fn flush(out: Seq<Seq<char>>, cur: Seq<char>) -> Seq<Seq<char>> {
    if cur.len() > 0 {
        out.push(cur)
    } else {
        out
    }
}

/// A word cut into pieces of `step` characters, the last one shorter.
pub open spec fn pieces(w: Seq<char>, step: nat) -> Seq<Seq<char>>
    recommends
        step > 0,
    decreases w.len(),
{
    if w.len() <= step || step == 0 {
        seq![w]
    } else {
        seq![w.take(step as int)] + pieces(w.skip(step as int), step)
    }
}

/// The piece size for a width: the width itself, and at least one.
pub open spec fn step_of(width: nat) -> nat {
    if width == 0 {
        1
    } else {
        width
    }
}

/// Lines finished after laying out `words` for `width`, and the line still
/// open: a word longer than the width is cut into pieces of its own; a word
/// joins the open line, after a space, while their lengths stay under the
/// width; else it opens a new line.
pub open spec fn scan_wrap(words: Seq<Seq<char>>, width: nat) -> (Seq<Seq<char>>, Seq<char>)
    decreases words.len(),
{
    if words.len() == 0 {
        (seq![], seq![])
    } else {
        let (out, cur) = scan_wrap(words.drop_last(), width);
        let w = words.last();
        if w.len() > width {
            (flush(out, cur) + pieces(w, step_of(width)), seq![])
        } else if cur.len() + w.len() < width {
            (out, if cur.len() == 0 {
                w
            } else {
                cur.push(' ') + w
            })
        } else {
            (flush(out, cur), w)
        }
    }
}

/// The lines that show `text` within `width` characters.
pub open spec fn wrapped(text: Seq<char>, width: nat) -> Seq<Seq<char>> {
    let (out, cur) = scan_wrap(words_of(text), width);
    flush(out, cur)
}

/// Splits `text` into its words.
pub fn split_words(text: &str) -> (r: Vec<String>)
    ensures
        views(r@) == words_of(text@),
{
    let mut words: Vec<String> = Vec::new();
    let mut cur = String::new();
    let mut cur_len: usize = 0;
    for c in it: text.chars()
        invariant
            it.seq() == text@,
            views(words@) == scan_words(text@.take(it.index() as int)).0,
            cur@ == scan_words(text@.take(it.index() as int)).1,
            cur_len == 0 <==> cur@.len() == 0,
    {
        let ghost pre = text@.take(it.index() as int);
        assert(text@.take(it.index() + 1).drop_last() == pre);
        if is_white_char(c) {
            if cur_len > 0 {
                assert(views(words@.push(cur)) =~= views(words@).push(cur@));
                words.push(cur);
            }
            cur = String::new();
            cur_len = 0;
        } else {
            push_char(&mut cur, c);
            cur_len = 1;
        }
    }
    assert(text@.take(text@.len() as int) =~= text@);
    if cur_len > 0 {
        assert(views(words@.push(cur)) =~= views(words@).push(cur@));
        words.push(cur);
    }
    words
}

/// Cuts a non-empty word into pieces of `step` characters.
fn cut_word(word: &str, step: usize) -> (r: Vec<String>)
    requires
        word@.len() > 0,
        step > 0,
    ensures
        views(r@) == pieces(word@, step as nat),
{
    let n = word.unicode_len();
    let ghost w = word@;
    let mut out: Vec<String> = Vec::new();
    let mut i: usize = 0;
    proof {
        assert(w.skip(0) =~= w);
        assert(views(out@) + pieces(w, step as nat) =~= pieces(w, step as nat));
    }
    while i < n
        invariant
            n == w.len(),
            w == word@,
            step > 0,
            i <= n,
            i < n ==> views(out@) + pieces(w.skip(i as int), step as nat) == pieces(w, step as nat),
            i == n ==> views(out@) == pieces(w, step as nat),
            i == 0 ==> out@.len() == 0,
        decreases n - i,
    {
        let j = if n - i > step {
            i + step
        } else {
            n
        };
        let p = String::from_str(word.substring_char(i, j));
        proof {
            let rest = w.skip(i as int);
            if i == 0 {
                assert(views(out@) =~= Seq::<Seq<char>>::empty());
                assert(w.skip(0) =~= w);
            }
            assert(views(out@.push(p)) =~= views(out@).push(p@));
            if j < n {
                assert(rest.take(step as int) =~= p@);
                assert(rest.skip(step as int) =~= w.skip(j as int));
                assert(views(out@).push(p@) + pieces(w.skip(j as int), step as nat) =~= views(out@)
                    + pieces(rest, step as nat));
            } else {
                assert(rest =~= p@);
                assert(views(out@).push(p@) =~= views(out@) + pieces(rest, step as nat));
            }
        }
        out.push(p);
        i = j;
    }
    out
}

/// Lays `text` out in lines of at most `width` characters, as `wrapped`
/// says.
pub fn wrap_text(text: &str, width: usize) -> (r: Vec<String>)
    ensures
        views(r@) == wrapped(text@, width as nat),
{
    let words = split_words(text);
    let ghost ws = words_of(text@);
    let step = if width == 0 {
        1
    } else {
        width
    };
    let mut out: Vec<String> = Vec::new();
    let mut cur = String::new();
    let mut cur_len: usize = 0;
    for i in 0..words.len()
        invariant
            views(words@) == ws,
            step as nat == step_of(width as nat),
            views(out@) == scan_wrap(ws.take(i as int), width as nat).0,
            cur@ == scan_wrap(ws.take(i as int), width as nat).1,
            cur_len == cur@.len(),
            cur_len <= width,
    {
        assert(ws.take(i + 1).drop_last() =~= ws.take(i as int));
        assert(ws.take(i + 1).last() == ws[i as int]);
        let w = words[i].as_str();
        assert(w@ == ws[i as int]);
        let w_len = w.unicode_len();
        if w_len > width {
            if cur_len > 0 {
                assert(views(out@.push(cur)) =~= views(out@).push(cur@));
                out.push(cur);
            }
            let ghost before = views(out@);
            let ps = cut_word(w, step);
            for k in 0..ps.len()
                invariant
                    views(out@) == before + views(ps@).take(k as int),
            {
                assert(views(out@.push(ps[k as int])) =~= views(out@).push(ps[k as int]@));
                assert(views(ps@).take(k + 1) =~= views(ps@).take(k as int).push(ps[k as int]@));
                out.push(ps[k].clone());
            }
            assert(views(ps@).take(ps.len() as int) =~= views(ps@));
            cur = String::new();
            cur_len = 0;
            assert(cur@ =~= Seq::<char>::empty());
        } else if w_len < width - cur_len {
            if cur_len == 0 {
                cur = String::from_str(w);
            } else {
                push_char(&mut cur, ' ');
                cur.append(w);
            }
            cur_len = cur_len + w_len + if cur_len == 0 { 0 } else { 1 };
        } else {
            if cur_len > 0 {
                assert(views(out@.push(cur)) =~= views(out@).push(cur@));
                out.push(cur);
            }
            cur = String::from_str(w);
            cur_len = w_len;
        }
    }
    assert(ws.take(words.len() as int) =~= ws);
    if cur_len > 0 {
        assert(views(out@.push(cur)) =~= views(out@).push(cur@));
        out.push(cur);
    }
    out
}

} // verus!
