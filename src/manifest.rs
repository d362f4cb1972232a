use vstd::prelude::*;
use vstd::string::*;
use crate::text::{lines_of, push_char, scan_lines, split_lines, strip_cr, views};

verus! {

/// One record of the manifest: a file and the number of chunks it added to
/// the vector index.
pub struct ManifestEntry {
    pub path: String,
    pub chunk_count: usize,
}

pub open spec fn entry_view(e: ManifestEntry) -> (Seq<char>, nat) {
    (e.path@, e.chunk_count as nat)
}

pub open spec fn entry_views(es: Seq<ManifestEntry>) -> Seq<(Seq<char>, nat)> {
    es.map_values(|e: ManifestEntry| entry_view(e))
}

pub open spec fn is_digit(c: char) -> bool {
    '0' <= c <= '9'
}

pub open spec fn all_digits(d: Seq<char>) -> bool {
    forall|j: int| 0 <= j < d.len() ==> is_digit(#[trigger] d[j])
}

/// The number that a run of decimal digits denotes.
pub open spec fn digits_value(d: Seq<char>) -> nat
    decreases d.len(),
{
    if d.len() == 0 {
        0
    } else {
        (digits_value(d.drop_last()) * 10 + (d.last() as u32) - 48) as nat
    }
}

/// The decimal digits of `n`, without leading zeros.
pub open spec fn decimal_of(n: nat) -> Seq<char>
    decreases n,
{
    if n < 10 {
        seq![((n + 48) as u32) as char]
    } else {
        decimal_of(n / 10).push((((n % 10) + 48) as u32) as char)
    }
}

/// `i` splits `l` into a non-empty path, one space, and digits: the space
/// is the last one of the line.
pub open spec fn is_split(l: Seq<char>, i: int) -> bool {
    &&& 0 < i < l.len() - 1
    &&& l[i] == ' '
    &&& all_digits(l.subrange(i + 1, l.len() as int))
}

/// The record a manifest line holds: `<path> <chunk_count>`, the count
/// fitting in a `usize`. Any other line holds none.
pub open spec fn record_of(l: Seq<char>) -> Option<(Seq<char>, nat)> {
    if exists|i: int| is_split(l, i) {
        let i = choose|i: int| is_split(l, i);
        let n = digits_value(l.subrange(i + 1, l.len() as int));
        if n <= usize::MAX {
            Some((l.take(i), n))
        } else {
            None
        }
    } else {
        None
    }
}

/// The records of the given manifest lines, in order.
pub open spec fn records_of(lines: Seq<Seq<char>>) -> Seq<(Seq<char>, nat)>
    decreases lines.len(),
{
    if lines.len() == 0 {
        seq![]
    } else {
        let pre = records_of(lines.drop_last());
        match record_of(lines.last()) {
            Some(r) => pre.push(r),
            None => pre,
        }
    }
}

/// The line that records `path` with `n` chunks, newline included.
pub open spec fn record_line(path: Seq<char>, n: nat) -> Seq<char> {
    path + seq![' '] + decimal_of(n) + seq!['\n']
}

/// Number of chunks that the entries account for.
pub open spec fn chunk_total(es: Seq<(Seq<char>, nat)>) -> nat
    decreases es.len(),
{
    if es.len() == 0 {
        0
    } else {
        chunk_total(es.drop_last()) + es.last().1
    }
}

pub open spec fn paths_of(es: Seq<(Seq<char>, nat)>) -> Seq<Seq<char>> {
    es.map_values(|e: (Seq<char>, nat)| e.0)
}

proof fn lemma_digits_value_prefix(d: Seq<char>, k: int)
    requires
        0 <= k <= d.len(),
        all_digits(d),
    ensures
        digits_value(d.take(k)) <= digits_value(d),
    decreases d.len(),
{
    if k < d.len() {
        assert(d.drop_last().take(k) =~= d.take(k));
        lemma_digits_value_prefix(d.drop_last(), k);
    } else {
        assert(d.take(k) =~= d);
    }
}

/// The number a string of decimal digits denotes: `None` when it is empty,
/// holds another character, or does not fit in a `usize`.
pub fn parse_count(d: &str) -> (r: Option<usize>)
    ensures
        r is Some <==> d@.len() > 0 && all_digits(d@) && digits_value(d@) <= usize::MAX,
        r matches Some(v) ==> v == digits_value(d@),
{
    let mut value: usize = 0;
    let mut seen: bool = false;
    for c in it: d.chars()
        invariant
            it.seq() == d@,
            seen == (it.index() > 0),
            all_digits(d@.take(it.index() as int)),
            value == digits_value(d@.take(it.index() as int)),
    {
        let ghost k = it.index() as int;
        assert(d@.take(k + 1).drop_last() =~= d@.take(k));
        if !('0' <= c && c <= '9') {
            assert(!is_digit(d@[k]));
            return None;
        }
        let digit = (c as u32 - 48) as usize;
        let next = match value.checked_mul(10) {
            Some(v) => v.checked_add(digit),
            None => None,
        };
        match next {
            Some(v) => {
                value = v;
            },
            None => {
                proof {
                    if all_digits(d@) {
                        lemma_digits_value_prefix(d@, k + 1);
                    }
                }
                return None;
            },
        }
        seen = true;
        assert(all_digits(d@.take(k + 1)));
    }
    assert(d@.take(d@.len() as int) =~= d@);
    if !seen {
        None
    } else {
        Some(value)
    }
}

/// Position of the last space of `s`, if it holds one.
fn last_space(s: &str) -> (r: Option<usize>)
    ensures
        r matches Some(i) ==> i < s@.len() && s@[i as int] == ' ' && forall|j: int|
            i < j < s@.len() ==> #[trigger] s@[j] != ' ',
        r is None ==> forall|j: int| 0 <= j < s@.len() ==> #[trigger] s@[j] != ' ',
{
    let len = s.unicode_len();
    let mut i: usize = 0;
    let mut last: Option<usize> = None;
    for c in it: s.chars()
        invariant
            it.seq() == s@,
            len == s@.len(),
            i == it.index(),
            last matches Some(k) ==> k < i && s@[k as int] == ' ' && forall|j: int|
                k < j < i ==> #[trigger] s@[j] != ' ',
            last is None ==> forall|j: int| 0 <= j < i ==> #[trigger] s@[j] != ' ',
    {
        assert(c == s@[i as int]);
        if c == ' ' {
            last = Some(i);
        }
        i = i + 1;
    }
    last
}

/// Reads one manifest line, `<path> <chunk_count>`.
pub fn parse_record(line: &str) -> (r: Option<ManifestEntry>)
    ensures
        r matches Some(e) ==> record_of(line@) == Some(entry_view(e)),
        r is None ==> record_of(line@) is None,
{
    let len = line.unicode_len();
    let i = match last_space(line) {
        Some(i) => i,
        None => {
            return None;
        },
    };
    proof {
        assert forall|k: int| is_split(line@, k) implies k == i by {
            if k < i {
                assert(line@.subrange(k + 1, line@.len() as int)[i - k - 1] == line@[i as int]);
                assert(is_digit(line@.subrange(k + 1, line@.len() as int)[i - k - 1]));
            } else if k > i {
                assert(line@[k] != ' ');
            }
        }
    }
    if i == 0 || len - i < 2 {
        return None;
    }
    let digits = line.substring_char(i + 1, len);
    match parse_count(digits) {
        Some(n) => {
            assert(is_split(line@, i as int));
            let path = line.substring_char(0, i);
            assert(path@ == line@.take(i as int));
            Some(ManifestEntry { path: String::from_str(path), chunk_count: n })
        },
        None => None,
    }
}

/// Reads the manifest's text: the records of its lines, in order; a line
/// that holds no record is passed over.
pub fn parse_manifest(text: &str) -> (r: Vec<ManifestEntry>)
    ensures
        entry_views(r@) == records_of(lines_of(text@)),
{
    let lines = split_lines(text);
    let ghost ls = lines_of(text@);
    let mut entries: Vec<ManifestEntry> = Vec::new();
    for i in 0..lines.len()
        invariant
            views(lines@) == ls,
            entry_views(entries@) == records_of(ls.take(i as int)),
    {
        assert(ls.take(i + 1).drop_last() =~= ls.take(i as int));
        assert(lines[i as int]@ == ls[i as int]);
        match parse_record(lines[i].as_str()) {
            Some(e) => {
                assert(entry_views(entries@.push(e)) =~= entry_views(entries@).push(entry_view(e)));
                entries.push(e);
            },
            None => {},
        }
    }
    assert(ls.take(lines.len() as int) =~= ls);
    entries
}

/// The digit character of `d`.
fn digit_char(d: usize) -> (c: char)
    requires
        d < 10,
    ensures
        c == ((d + 48) as u32) as char,
        is_digit(c),
{
    let b: u8 = (d as u8) + 48;
    b as char
}

/// `n` in decimal.
pub fn decimal_string(n: usize) -> (r: String)
    ensures
        r@ == decimal_of(n as nat),
    decreases n,
{
    if n < 10 {
        let mut s = String::new();
        push_char(&mut s, digit_char(n));
        assert(s@ =~= decimal_of(n as nat));
        s
    } else {
        let mut s = decimal_string(n / 10);
        push_char(&mut s, digit_char(n % 10));
        s
    }
}

/// The manifest line that records `entry`: its path, one space, its chunk
/// count in decimal, and a newline.
pub fn format_record(entry: &ManifestEntry) -> (r: String)
    ensures
        r@ == record_line(entry.path@, entry.chunk_count as nat),
{
    let mut s = entry.path.clone();
    push_char(&mut s, ' ');
    let d = decimal_string(entry.chunk_count);
    s.append(d.as_str());
    push_char(&mut s, '\n');
    s
}

/// Whether some entry records `path`.
pub fn is_indexed(entries: &Vec<ManifestEntry>, path: &String) -> (r: bool)
    ensures
        r == paths_of(entry_views(entries@)).contains(path@),
{
    let ghost ps = paths_of(entry_views(entries@));
    for i in 0..entries.len()
        invariant
            ps == paths_of(entry_views(entries@)),
            forall|j: int| 0 <= j < i ==> ps[j] != path@,
    {
        if entries[i].path == *path {
            assert(ps[i as int] == path@);
            return true;
        }
    }
    false
}

/// Where the chunk at `index` of the global vector index lives: the
/// position of the entry that owns it and its offset among that entry's
/// chunks. `None` when `index` is past the last chunk.
pub fn locate(entries: &Vec<ManifestEntry>, index: usize) -> (r: Option<(usize, usize)>)
    ensures
        r is Some <==> index < chunk_total(entry_views(entries@)),
        r matches Some((e, off)) ==> e < entries@.len() && off < entries@[e as int].chunk_count
            && chunk_total(entry_views(entries@).take(e as int)) + off == index,
{
    let ghost es = entry_views(entries@);
    let mut rem: usize = index;
    for i in 0..entries.len()
        invariant
            es == entry_views(entries@),
            chunk_total(es.take(i as int)) + rem == index,
    {
        assert(es.take(i + 1).drop_last() =~= es.take(i as int));
        let count = entries[i].chunk_count;
        if rem < count {
            proof {
                lemma_chunk_total_prefix(es, i + 1);
            }
            return Some((i, rem));
        }
        rem = rem - count;
    }
    assert(es.take(entries.len() as int) =~= es);
    None
}

/// The chunks of a prefix never outnumber those of the whole.
pub proof fn lemma_chunk_total_prefix(es: Seq<(Seq<char>, nat)>, k: int)
    requires
        0 <= k <= es.len(),
    ensures
        chunk_total(es.take(k)) <= chunk_total(es),
    decreases es.len(),
{
    if k < es.len() {
        assert(es.drop_last().take(k) =~= es.take(k));
        lemma_chunk_total_prefix(es.drop_last(), k);
    } else {
        assert(es.take(k) =~= es);
    }
}

proof fn lemma_decimal_digits(n: nat)
    ensures
        decimal_of(n).len() > 0,
        all_digits(decimal_of(n)),
        digits_value(decimal_of(n)) == n,
    decreases n,
{
    let d = decimal_of(n);
    if n < 10 {
        assert(d.drop_last() =~= Seq::<char>::empty());
        assert(((((n + 48) as u32) as char) as u32) == n + 48);
        assert(digits_value(d.drop_last()) == 0);
        assert(d.last() == (((n + 48) as u32) as char));
    } else {
        assert((((((n % 10) + 48) as u32) as char) as u32) == (n % 10) + 48);
        lemma_decimal_digits(n / 10);
        assert(d.drop_last() =~= decimal_of(n / 10));
        assert(d.last() == ((((n % 10) + 48) as u32) as char));
        let q = n / 10;
        assert(digits_value(d) == (digits_value(decimal_of(q)) * 10 + (d.last() as u32) - 48) as nat);
        assert(digits_value(d) == q * 10 + n % 10);
        assert(n == q * 10 + n % 10);
    }
}

/// A record written for a non-empty path and a chunk count reads back as
/// that path and count.
pub proof fn lemma_record_round_trip(path: Seq<char>, n: usize)
    requires
        path.len() > 0,
    ensures
        record_of(record_line(path, n as nat).drop_last()) == Some((path, n as nat)),
{
    let d = decimal_of(n as nat);
    lemma_decimal_digits(n as nat);
    let l = record_line(path, n as nat).drop_last();
    assert(l =~= path + seq![' '] + d);
    let i = path.len() as int;
    assert(l.subrange(i + 1, l.len() as int) =~= d);
    assert(forall|j: int| 0 <= j < i ==> l[j] == path[j]);
    assert(is_split(l, i));
    let k = choose|k: int| is_split(l, k);
    if k < i {
        assert(l.subrange(k + 1, l.len() as int)[i - k - 1] == l[i]);
        assert(is_digit(l.subrange(k + 1, l.len() as int)[i - k - 1]));
    } else if k > i {
        assert(l.subrange(i + 1, l.len() as int)[k - i - 1] == l[k]);
        assert(is_digit(l.subrange(i + 1, l.len() as int)[k - i - 1]));
    }
    assert(l.take(i) =~= path);
}

proof fn lemma_scan_lines_concat(a: Seq<char>, b: Seq<char>)
    requires
        scan_lines(a).1.len() == 0,
    ensures
        scan_lines(a + b) == (scan_lines(a).0 + scan_lines(b).0, scan_lines(b).1),
    decreases b.len(),
{
    if b.len() == 0 {
        assert(a + b =~= a);
        assert(scan_lines(a).0 + Seq::<Seq<char>>::empty() =~= scan_lines(a).0);
        assert(scan_lines(a).1 =~= Seq::<char>::empty());
    } else {
        assert((a + b).drop_last() =~= a + b.drop_last());
        assert((a + b).last() == b.last());
        lemma_scan_lines_concat(a, b.drop_last());
        let (d, c) = scan_lines(b.drop_last());
        if b.last() == '\n' {
            assert(scan_lines(a).0 + d.push(strip_cr(c)) =~= (scan_lines(a).0 + d).push(strip_cr(c)));
        }
    }
}

proof fn lemma_scan_lines_one(l: Seq<char>)
    requires
        forall|j: int| 0 <= j < l.len() ==> #[trigger] l[j] != '\n',
    ensures
        scan_lines(l) == (Seq::<Seq<char>>::empty(), l),
    decreases l.len(),
{
    if l.len() == 0 {
        assert(l =~= Seq::<char>::empty());
    } else {
        lemma_scan_lines_one(l.drop_last());
        assert(l.drop_last().push(l.last()) =~= l);
    }
}

/// Appending the line of a record to a manifest text that is empty or ends
/// with a newline makes the manifest read back with exactly that record
/// added at its end.
pub proof fn lemma_append_record(text: Seq<char>, path: Seq<char>, n: usize)
    requires
        text.len() == 0 || text.last() == '\n',
        path.len() > 0,
        forall|j: int| 0 <= j < path.len() ==> #[trigger] path[j] != '\n',
    ensures
        records_of(lines_of(text + record_line(path, n as nat))) == records_of(lines_of(text)).push(
            (path, n as nat),
        ),
{
    let rl = record_line(path, n as nat);
    let l = rl.drop_last();
    lemma_record_round_trip(path, n);
    lemma_decimal_digits(n as nat);
    let d = decimal_of(n as nat);
    assert(l =~= path + seq![' '] + d);
    assert forall|j: int| 0 <= j < l.len() implies #[trigger] l[j] != '\n' by {
        if j < path.len() {
            assert(l[j] == path[j]);
        } else if j > path.len() {
            assert(is_digit(d[j - path.len() - 1]));
        }
    }
    assert(is_digit(d[d.len() - 1]));
    assert(l.last() == d.last());
    assert(strip_cr(l) == l);
    if text.len() > 0 {
        assert(text.drop_last().push(text.last()) =~= text);
    }
    assert(scan_lines(text).1.len() == 0);
    lemma_scan_lines_one(l);
    assert(rl =~= l.push('\n'));
    assert(rl.drop_last() =~= l);
    assert(scan_lines(rl) == (seq![l], Seq::<char>::empty()));
    lemma_scan_lines_concat(text, rl);
    let ls = lines_of(text);
    assert(lines_of(text + rl) =~= ls.push(l));
    assert(ls.push(l).drop_last() =~= ls);
}

/// Number of chunks the entries account for, or `None` when it does not
/// fit in a `usize`.
pub fn manifest_total(entries: &Vec<ManifestEntry>) -> (r: Option<usize>)
    ensures
        r is Some <==> chunk_total(entry_views(entries@)) <= usize::MAX,
        r matches Some(t) ==> t == chunk_total(entry_views(entries@)),
{
    let ghost es = entry_views(entries@);
    let mut total: usize = 0;
    for i in 0..entries.len()
        invariant
            es == entry_views(entries@),
            total == chunk_total(es.take(i as int)),
    {
        assert(es.take(i + 1).drop_last() =~= es.take(i as int));
        let count = entries[i].chunk_count;
        if count > usize::MAX - total {
            proof {
                lemma_chunk_total_prefix(es, i + 1);
            }
            return None;
        }
        total = total + count;
    }
    assert(es.take(entries.len() as int) =~= es);
    Some(total)
}

} // verus!
