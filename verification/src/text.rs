//! The text of `/proc` status files: lines, words and labelled values.
use vstd::prelude::*;

verus! {

/// The texts held by a vector of strings.
pub open spec fn text_views(v: Seq<String>) -> Seq<Seq<char>> {
    v.map_values(|s: String| s@)
}

/// The characters of a string, one by one.
pub fn chars_of(s: &str) -> (v: Vec<char>)
    ensures
        v@ == s@,
{
    let mut v: Vec<char> = Vec::new();
    for c in it: s.chars()
        invariant
            v@ == it.seq().take(it.index() as int),
    {
        v.push(c);
    }
    v
}

/// The characters `t[from..to]`, copied.
pub fn slice_chars(t: &Vec<char>, from: usize, to: usize) -> (v: Vec<char>)
    requires
        from <= to <= t.len(),
    ensures
        v@ == t@.subrange(from as int, to as int),
{
    let mut v: Vec<char> = Vec::new();
    let mut k = from;
    while k < to
        invariant
            from <= k <= to <= t.len(),
            v@ == t@.subrange(from as int, k as int),
        decreases to - k,
    {
        v.push(t[k]);
        k = k + 1;
    }
    v
}

/// Whitespace in the sense of Unicode's `White_Space` property, which is the
/// sense of `char::is_whitespace`.
pub open spec fn is_white(c: char) -> bool {
    let u = c as u32;
    (9 <= u <= 13) || u == 32 || u == 0x85 || u == 0xa0 || u == 0x1680 || (0x2000 <= u <= 0x200a)
        || u == 0x2028 || u == 0x2029 || u == 0x202f || u == 0x205f || u == 0x3000
}

/// Whether `c` is whitespace.
pub fn is_white_char(c: char) -> (b: bool)
    ensures
        b == is_white(c),
{
    let u = c as u32;
    (9 <= u && u <= 13) || u == 32 || u == 0x85 || u == 0xa0 || u == 0x1680 || (0x2000 <= u && u
        <= 0x200a) || u == 0x2028 || u == 0x2029 || u == 0x202f || u == 0x205f || u == 0x3000
}

/// The position of the first line feed at or after `i`, or the length.
pub open spec fn line_end(t: Seq<char>, i: int) -> int
    decreases t.len() - i,
{
    if i < 0 || i >= t.len() {
        t.len() as int
    } else if t[i] == '\n' {
        i
    } else {
        line_end(t, i + 1)
    }
}

/// `l` without one trailing carriage return.
pub open spec fn strip_cr(l: Seq<char>) -> Seq<char> {
    if l.len() > 0 && l.last() == '\r' {
        l.drop_last()
    } else {
        l
    }
}

pub proof fn lemma_line_end(t: Seq<char>, i: int)
    requires
        0 <= i <= t.len(),
    ensures
        i <= line_end(t, i) <= t.len(),
        line_end(t, i) < t.len() ==> t[line_end(t, i)] == '\n',
        forall|k: int| i <= k < line_end(t, i) ==> t[k] != '\n',
    decreases t.len() - i,
{
    if i < t.len() && t[i] != '\n' {
        lemma_line_end(t, i + 1);
    }
}

/// The lines of `t` from position `i` on, as `str::lines` gives them: split
/// at line feeds, a carriage return before a line feed dropped, and no empty
/// line after a final line feed.
pub open spec fn lines_from(t: Seq<char>, i: int) -> Seq<Seq<char>>
    decreases t.len() - i,
{
    if i < 0 || i >= t.len() {
        seq![]
    } else {
        let e = line_end(t, i);
        if e < t.len() {
            proof {
                lemma_line_end(t, i);
            }
            seq![strip_cr(t.subrange(i, e))] + lines_from(t, e + 1)
        } else {
            seq![t.subrange(i, t.len() as int)]
        }
    }
}

/// The lines of `t`.
pub open spec fn lines(t: Seq<char>) -> Seq<Seq<char>> {
    lines_from(t, 0)
}

/// `l` begins with `p`.
pub open spec fn starts_with(l: Seq<char>, p: Seq<char>) -> bool {
    p.len() <= l.len() && l.take(p.len() as int) == p
}

/// The first of `ls` that begins with `p`.
pub open spec fn first_with_prefix(ls: Seq<Seq<char>>, p: Seq<char>) -> Option<Seq<char>>
    decreases ls.len(),
{
    if ls.len() == 0 {
        None
    } else if starts_with(ls[0], p) {
        Some(ls[0])
    } else {
        first_with_prefix(ls.drop_first(), p)
    }
}

/// The first line of `t` that begins with `p`, as the positions of its first
/// character and of the end of its text.
pub fn find_line(t: &Vec<char>, p: &Vec<char>) -> (r: Option<(usize, usize)>)
    ensures
        match r {
            Some((s, e)) => s <= e <= t.len() && first_with_prefix(lines(t@), p@) == Some(
                t@.subrange(s as int, e as int),
            ),
            None => first_with_prefix(lines(t@), p@) is None,
        },
{
    let n = t.len();
    let mut pos: usize = 0;
    while pos < n
        invariant
            n == t.len(),
            pos <= n,
            first_with_prefix(lines(t@), p@) == first_with_prefix(lines_from(t@, pos as int), p@),
        decreases n - pos,
    {
        let mut e = pos;
        while e < n && t[e] != '\n'
            invariant
                n == t.len(),
                pos <= e <= n,
                line_end(t@, pos as int) == line_end(t@, e as int),
            decreases n - e,
        {
            e = e + 1;
        }
        let le = if e < n && e > pos && t[e - 1] == '\r' {
            e - 1
        } else {
            e
        };
        let ghost line = t@.subrange(pos as int, le as int);
        let ghost rest = if e < n {
            lines_from(t@, e + 1)
        } else {
            seq![]
        };
        proof {
            assert(line_end(t@, pos as int) == e);
            if e < n {
                assert(line =~= strip_cr(t@.subrange(pos as int, e as int)));
            } else {
                assert(line =~= t@.subrange(pos as int, n as int));
            }
            assert(lines_from(t@, pos as int) =~= seq![line] + rest);
            assert((seq![line] + rest).drop_first() =~= rest);
        }
        let mut agree = p.len() <= le - pos;
        let mut k: usize = 0;
        while agree && k < p.len()
            invariant
                agree ==> p.len() <= le - pos,
                pos <= le <= n,
                n == t.len(),
                k <= p.len(),
                line == t@.subrange(pos as int, le as int),
                agree ==> forall|j: int| 0 <= j < k ==> line[j] == p@[j],
                !agree ==> !starts_with(line, p@),
            decreases p.len() - k + if agree { 1int } else { 0int },
        {
            if t[pos + k] != p[k] {
                agree = false;
                proof {
                    assert(line.take(p.len() as int)[k as int] != p@[k as int]);
                }
            } else {
                k = k + 1;
            }
        }
        if agree {
            proof {
                assert(line.take(p.len() as int) =~= p@);
            }
            return Some((pos, le));
        }
        proof {
            let whole = seq![line] + rest;
            assert(whole[0] == line);
            assert(first_with_prefix(whole, p@) == first_with_prefix(whole.drop_first(), p@));
        }
        if e == n {
            proof {
                assert(rest =~= Seq::<Seq<char>>::empty());
            }
            return None;
        }
        pos = e + 1;
    }
    None
}

/// The position of the first whitespace at or after `i`, or the length.
pub open spec fn word_end(l: Seq<char>, i: int) -> int
    decreases l.len() - i,
{
    if i < 0 || i >= l.len() {
        l.len() as int
    } else if is_white(l[i]) {
        i
    } else {
        word_end(l, i + 1)
    }
}

pub proof fn lemma_word_end(l: Seq<char>, i: int)
    requires
        0 <= i <= l.len(),
    ensures
        i <= word_end(l, i) <= l.len(),
    decreases l.len() - i,
{
    if i < l.len() && !is_white(l[i]) {
        lemma_word_end(l, i + 1);
    }
}

/// The words of `l` from position `i` on, as `str::split_whitespace` gives
/// them: the non-empty runs of characters that are not whitespace.
pub open spec fn words_from(l: Seq<char>, i: int) -> Seq<Seq<char>>
    decreases l.len() - i,
{
    if i < 0 || i >= l.len() {
        seq![]
    } else if is_white(l[i]) {
        words_from(l, i + 1)
    } else {
        let e = word_end(l, i + 1);
        proof {
            lemma_word_end(l, i + 1);
        }
        seq![l.subrange(i, e)] + words_from(l, e)
    }
}

/// The words of `l`.
pub open spec fn words(l: Seq<char>) -> Seq<Seq<char>> {
    words_from(l, 0)
}

/// Skips whitespace from `i` on.
fn skip_white(l: &Vec<char>, i: usize) -> (j: usize)
    requires
        i <= l.len(),
    ensures
        i <= j <= l.len(),
        words_from(l@, i as int) == words_from(l@, j as int),
        j < l.len() ==> !is_white(l@[j as int]),
{
    let mut j = i;
    while j < l.len() && is_white_char(l[j])
        invariant
            i <= j <= l.len(),
            words_from(l@, i as int) == words_from(l@, j as int),
        decreases l.len() - j,
    {
        j = j + 1;
    }
    j
}

/// The end of the word that starts at `i`.
fn end_of_word(l: &Vec<char>, i: usize) -> (e: usize)
    requires
        i < l.len(),
        !is_white(l@[i as int]),
    ensures
        i < e <= l.len(),
        e == word_end(l@, i as int + 1),
{
    let mut e = i + 1;
    while e < l.len() && !is_white_char(l[e])
        invariant
            i < e <= l.len(),
            word_end(l@, i as int + 1) == word_end(l@, e as int),
        decreases l.len() - e,
    {
        e = e + 1;
    }
    e
}

/// The second word of `l`, as its start and end positions.
pub fn second_word(l: &Vec<char>) -> (r: Option<(usize, usize)>)
    ensures
        match r {
            Some((s, e)) => s <= e <= l.len() && words(l@).len() >= 2 && words(l@)[1]
                == l@.subrange(s as int, e as int),
            None => words(l@).len() < 2,
        },
{
    let a = skip_white(l, 0);
    if a == l.len() {
        return None;
    }
    let b = end_of_word(l, a);
    proof {
        assert(words_from(l@, a as int) =~= seq![l@.subrange(a as int, b as int)] + words_from(
            l@,
            b as int,
        ));
    }
    let c = skip_white(l, b);
    if c == l.len() {
        return None;
    }
    let d = end_of_word(l, c);
    proof {
        assert(words_from(l@, c as int) =~= seq![l@.subrange(c as int, d as int)] + words_from(
            l@,
            d as int,
        ));
    }
    Some((c, d))
}

/// A labelled line such as `Name:\tbash` can lose its first six bytes: it has
/// a sixth character and that character is a single byte.
pub open spec fn label_fits(l: Seq<char>) -> bool {
    l.len() >= 6 && (l[5] as u32) < 0x80
}

/// `Name:`
pub open spec fn name_label() -> Seq<char> {
    seq!['N', 'a', 'm', 'e', ':']
}

/// The first line of a status text that begins with `Name:`.
pub open spec fn name_line(status: Seq<char>) -> Option<Seq<char>> {
    first_with_prefix(lines(status), name_label())
}

/// The first line of `status` that begins with `Name:`, as positions.
pub fn find_name_line(status: &Vec<char>) -> (r: Option<(usize, usize)>)
    ensures
        match r {
            Some((s, e)) => s <= e <= status.len() && name_line(status@) == Some(
                status@.subrange(s as int, e as int),
            ),
            None => name_line(status@) is None,
        },
{
    let prefix = vec!['N', 'a', 'm', 'e', ':'];
    proof {
        assert(prefix@ =~= name_label());
    }
    find_line(status, &prefix)
}

/// The text of the labelled line `status[from..to]` after its first six
/// characters.
pub fn label_text(status: &str, from: usize, to: usize) -> (s: String)
    requires
        from <= to <= status@.len(),
        label_fits(status@.subrange(from as int, to as int)),
    ensures
        s@ == label_value(status@.subrange(from as int, to as int)),
{
    proof {
        assert(label_value(status@.subrange(from as int, to as int)) =~= status@.subrange(
            from + 6,
            to as int,
        ));
    }
    String::from_str(status.substring_char(from + 6, to))
}

/// What follows the first six characters of a labelled line.
pub open spec fn label_value(l: Seq<char>) -> Seq<char> {
    l.skip(6)
}

/// The second word of a line, read as a decimal number.
pub open spec fn amount_of(l: Seq<char>) -> Option<usize> {
    if words(l).len() >= 2 {
        crate::number::parsed_usize(words(l)[1])
    } else {
        None
    }
}

/// The second word of the line `t[from..to]`, read as a decimal number.
pub fn line_amount(t: &Vec<char>, from: usize, to: usize) -> (r: Option<usize>)
    requires
        from <= to <= t.len(),
    ensures
        r == amount_of(t@.subrange(from as int, to as int)),
{
    let line = slice_chars(t, from, to);
    match second_word(&line) {
        Some((ws, we)) => {
            let word = slice_chars(&line, ws, we);
            crate::number::parse_usize(&word)
        },
        None => None,
    }
}

/// Whether the labelled line `t[from..to]` can lose its first six bytes.
pub fn label_fits_check(t: &Vec<char>, from: usize, to: usize) -> (b: bool)
    requires
        from <= to <= t.len(),
    ensures
        b == label_fits(t@.subrange(from as int, to as int)),
{
    to - from >= 6 && (t[from + 5] as u32) < 0x80
}

} // verus!
