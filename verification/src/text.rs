//! Text handling for the console: trimming, cutting into fixed-width chunks
//! and splitting on line breaks, over strings seen as sequences of characters.

use vstd::prelude::*;
use vstd::std_specs::iter::IteratorSpec;

verus! {

/// Whether std counts a character as white space: the value of
/// `char::is_whitespace`, which is a fixed property of the character.
pub uninterp spec fn is_white_space(c: char) -> bool;

/// `char::is_whitespace` of std. It depends on the character alone; nothing
/// more is claimed of which characters it holds for.
pub assume_specification[ char::is_whitespace ](c: char) -> (white: bool)
    ensures
        white == is_white_space(c),
;

/// `String::push` of std appends the character to the end of the string.
pub assume_specification[ String::push ](s: &mut String, ch: char)
    ensures
        final(s)@ == old(s)@.push(ch),
;

/// `String::pop` of std takes the last character off the string and returns
/// it, or returns `None` and leaves the string alone if it is empty.
pub assume_specification[ String::pop ](s: &mut String) -> (ch: Option<char>)
    ensures
        old(s)@.len() == 0 ==> ch is None && final(s)@ == old(s)@,
        old(s)@.len() > 0 ==> ch == Some(old(s)@.last()) && final(s)@ == old(s)@.drop_last(),
;

/// The character sequences of a sequence of strings.
pub open spec fn texts(strings: Seq<String>) -> Seq<Seq<char>> {
    strings.map_values(|s: String| s@)
}

/// A text without the white space at its end.
pub open spec fn trimmed(s: Seq<char>) -> Seq<char>
    decreases s.len(),
{
    if s.len() > 0 && is_white_space(s.last()) {
        trimmed(s.drop_last())
    } else {
        s
    }
}

/// A text cut into chunks of `width` characters; the last chunk holds what is
/// left and may be shorter. An empty text has no chunk.
pub open spec fn chunks(s: Seq<char>, width: nat) -> Seq<Seq<char>>
    decreases s.len(),
{
    if s.len() == 0 || width == 0 {
        Seq::empty()
    } else if s.len() <= width {
        seq![s]
    } else {
        seq![s.take(width as int)] + chunks(s.skip(width as int), width)
    }
}

/// A text split at its line breaks. The pieces hold no line break, and there
/// is one more piece than there are line breaks, so a text that ends in a
/// line break ends in an empty piece.
pub open spec fn split_lines(s: Seq<char>) -> Seq<Seq<char>>
    decreases s.len(),
{
    if s.len() == 0 {
        seq![Seq::empty()]
    } else {
        let before = split_lines(s.drop_last());
        if s.last() == '\n' {
            before.push(Seq::empty())
        } else {
            before.drop_last().push(before.last().push(s.last()))
        }
    }
}

/// The pieces of each of a sequence of texts, split at line breaks, in order.
pub open spec fn lines_of(parts: Seq<Seq<char>>) -> Seq<Seq<char>>
    decreases parts.len(),
{
    if parts.len() == 0 {
        Seq::empty()
    } else {
        split_lines(parts.first()) + lines_of(parts.drop_first())
    }
}

/// The lines a text takes on a console `width` characters wide: white space
/// at the end is dropped, then the text is cut every `width` characters, then
/// every chunk is split at its line breaks.
pub open spec fn wrapped(s: Seq<char>, width: nat) -> Seq<Seq<char>> {
    lines_of(chunks(trimmed(s), width))
}

/// Whether a line fits a console `width` characters wide: it is no longer
/// than that and holds no line break.
pub open spec fn fits(line: Seq<char>, width: nat) -> bool {
    line.len() <= width && !line.contains('\n')
}

/// The characters of a string.
pub fn chars_of(s: &str) -> (chars: Vec<char>)
    ensures
        chars@ == s@,
{
    let mut chars: Vec<char> = Vec::new();
    for c in it: s.chars()
        invariant
            chars@ == it.seq().take(it.index() as int),
            it.seq() == s@,
    {
        chars.push(c);
    }
    chars
}

/// The string made of the characters of `chars` from `from` up to `to`.
pub fn string_of(chars: &Vec<char>, from: usize, to: usize) -> (s: String)
    requires
        from <= to <= chars@.len(),
    ensures
        s@ == chars@.subrange(from as int, to as int),
{
    let mut s = String::new();
    let mut i: usize = from;
    while i < to
        invariant
            from <= i <= to <= chars@.len(),
            s@ == chars@.subrange(from as int, i as int),
        decreases to - i,
    {
        s.push(chars[i]);
        i += 1;
    }
    s
}

/// How many characters of `chars` are left when the white space at its end is
/// dropped.
pub fn trimmed_len(chars: &Vec<char>) -> (len: usize)
    ensures
        len <= chars@.len(),
        chars@.take(len as int) == trimmed(chars@),
{
    let mut len: usize = chars.len();
    assert(chars@.take(len as int) == chars@);
    while len > 0 && chars[len - 1].is_whitespace()
        invariant
            len <= chars@.len(),
            trimmed(chars@.take(len as int)) == trimmed(chars@),
        decreases len,
    {
        assert(chars@.take(len as int).drop_last() == chars@.take(len - 1));
        len -= 1;
    }
    len
}

/// Cuts a text into chunks of `n` characters; the last chunk holds what is
/// left.
pub fn split_into_chunks(s: &str, n: usize) -> (parts: Vec<String>)
    requires
        n > 0,
    ensures
        texts(parts@) == chunks(s@, n as nat),
{
    let chars = chars_of(s);
    assert(chars@.take(chars@.len() as int) == chars@);
    chunks_of(&chars, chars.len(), n)
}

/// Cuts the first `len` characters of `chars` into chunks of `n` characters.
fn chunks_of(chars: &Vec<char>, len: usize, n: usize) -> (parts: Vec<String>)
    requires
        n > 0,
        len <= chars@.len(),
    ensures
        texts(parts@) == chunks(chars@.take(len as int), n as nat),
{
    let ghost all = chars@.take(len as int);
    let mut parts: Vec<String> = Vec::new();
    let mut start: usize = 0;
    assert(all.skip(0) == all);
    while start < len
        invariant
            n > 0,
            start <= len <= chars@.len(),
            all == chars@.take(len as int),
            texts(parts@) + chunks(all.skip(start as int), n as nat) == chunks(all, n as nat),
        decreases len - start,
    {
        let stop: usize = if len - start <= n {
            len
        } else {
            start + n
        };
        let part = string_of(chars, start, stop);
        proof {
            let rest = all.skip(start as int);
            assert(part@ == rest.take(stop - start));
            if len - start <= n {
                assert(rest.take(stop - start) == rest);
            } else {
                assert(rest.skip(n as int) == all.skip(stop as int));
            }
        }
        parts.push(part);
        start = stop;
    }
    parts
}

/// Splits a text at its line breaks.
pub fn split_at_line_breaks(s: &str) -> (pieces: Vec<String>)
    ensures
        texts(pieces@) == split_lines(s@),
{
    let chars = chars_of(s);
    let mut pieces: Vec<String> = Vec::new();
    let mut piece = String::new();
    let mut i: usize = 0;
    while i < chars.len()
        invariant
            i <= chars@.len(),
            texts(pieces@).push(piece@) == split_lines(chars@.take(i as int)),
        decreases chars@.len() - i,
    {
        let c: char = chars[i];
        assert(chars@.take(i + 1).drop_last() == chars@.take(i as int));
        if c == '\n' {
            pieces.push(piece);
            piece = String::new();
        } else {
            piece.push(c);
        }
        i += 1;
    }
    assert(chars@.take(i as int) == chars@);
    pieces.push(piece);
    pieces
}

/// The lines that a text takes on a console `width` characters wide.
pub fn wrap(s: &str, width: usize) -> (lines: Vec<String>)
    requires
        width > 0,
    ensures
        texts(lines@) == wrapped(s@, width as nat),
{
    let chars = chars_of(s);
    let len = trimmed_len(&chars);
    wrap_chars(&chars, len, width)
}

/// The lines that the first `len` characters of `chars` take on a console
/// `width` characters wide: they are cut every `width` characters, and every
/// chunk is split at its line breaks. Nothing is trimmed.
pub fn wrap_chars(chars: &Vec<char>, len: usize, width: usize) -> (lines: Vec<String>)
    requires
        width > 0,
        len <= chars@.len(),
    ensures
        texts(lines@) == lines_of(chunks(chars@.take(len as int), width as nat)),
{
    let parts = chunks_of(chars, len, width);
    let mut lines: Vec<String> = Vec::new();
    let mut i: usize = 0;
    assert(texts(parts@).skip(0) == texts(parts@));
    while i < parts.len()
        invariant
            i <= parts@.len(),
            texts(lines@) + lines_of(texts(parts@).skip(i as int)) == lines_of(texts(parts@)),
        decreases parts@.len() - i,
    {
        let mut pieces = split_at_line_breaks(parts[i].as_str());
        assert(texts(parts@).skip(i as int).drop_first() == texts(parts@).skip(i + 1));
        lines.append(&mut pieces);
        i += 1;
    }
    lines
}

/// A text without the white space at its end is the beginning of the text,
/// and does not itself end in white space; a text that does not end in white
/// space is left whole.
pub proof fn lemma_trimmed(s: Seq<char>)
    ensures
        trimmed(s).len() <= s.len(),
        trimmed(s) == s.take(trimmed(s).len() as int),
        trimmed(s).len() > 0 ==> !is_white_space(trimmed(s).last()),
        s.len() == 0 || !is_white_space(s.last()) ==> trimmed(s) == s,
    decreases s.len(),
{
    if s.len() > 0 && is_white_space(s.last()) {
        lemma_trimmed(s.drop_last());
    }
}

/// Where chunk `k` of a text cut every `width` characters begins.
pub open spec fn chunk_start(width: nat, k: int) -> int {
    k * width
}

/// Where chunk `k` of a text ends: at the next multiple of `width`, or at the
/// end of the text if that comes first.
pub open spec fn chunk_end(len: nat, width: nat, k: int) -> int {
    if chunk_start(width, k) + width <= len {
        chunk_start(width, k) + width
    } else {
        len as int
    }
}

/// The chunks of a text are its consecutive stretches of `width` characters:
/// there are as many as the length divided by `width`, rounded up, every
/// chunk begins inside the text, chunk `k` runs from character `k * width` up
/// to the next multiple of `width` or the end of the text, and so none is
/// empty or longer than `width`.
pub proof fn lemma_chunks(s: Seq<char>, width: nat)
    requires
        width > 0,
    ensures
        chunks(s, width).len() == (s.len() + width - 1) / (width as int),
        forall|k: int|
            0 <= k < chunks(s, width).len() ==> 0 <= #[trigger] chunk_start(width, k) < s.len(),
        forall|k: int|
            0 <= k < chunks(s, width).len() ==> #[trigger] chunks(s, width)[k] == s.subrange(
                chunk_start(width, k),
                chunk_end(s.len(), width, k),
            ),
        forall|k: int|
            0 <= k < chunks(s, width).len() ==> 0 < (#[trigger] chunks(s, width)[k]).len()
                <= width,
    decreases s.len(),
{
    let w = width as int;
    let n = s.len() as int;
    if n == 0 {
        assert((n + w - 1) / w == 0) by (nonlinear_arith)
            requires
                n == 0,
                w > 0,
        ;
    } else if n <= w {
        assert((n + w - 1) / w == 1) by (nonlinear_arith)
            requires
                0 < n <= w,
        ;
    } else {
        let rest = s.skip(w);
        lemma_chunks(rest, width);
        assert((n + w - 1) / w == 1 + (n - w + w - 1) / w) by (nonlinear_arith)
            requires
                n > w > 0,
        ;
        assert forall|k: int| 0 <= k < chunks(s, width).len() implies 0 <= #[trigger] chunk_start(
            width,
            k,
        ) < s.len() && chunks(s, width)[k] == s.subrange(
            chunk_start(width, k),
            chunk_end(s.len(), width, k),
        ) by {
            if k > 0 {
                assert((k - 1) * width + width == k * width) by (nonlinear_arith);
                let from = chunk_start(width, k - 1);
                let to = chunk_end(rest.len(), width, k - 1);
                assert(chunks(s, width)[k] == rest.subrange(from, to));
                assert(rest.subrange(from, to) == s.subrange(from + w, to + w));
            }
        }
    }
}

/// The pieces of a text split at its line breaks hold no line break, and none
/// is longer than the text.
pub proof fn lemma_split_lines(s: Seq<char>)
    ensures
        split_lines(s).len() > 0,
        forall|i: int|
            0 <= i < split_lines(s).len() ==> fits(#[trigger] split_lines(s)[i], s.len()),
        !s.contains('\n') ==> split_lines(s) == seq![s],
    decreases s.len(),
{
    if s.len() == 0 {
        assert(s == Seq::<char>::empty());
    } else {
        let before = split_lines(s.drop_last());
        lemma_split_lines(s.drop_last());
        assert forall|i: int| 0 <= i < split_lines(s).len() implies fits(
            #[trigger] split_lines(s)[i],
            s.len(),
        ) by {
            if i < before.len() {
                assert(fits(before[i], s.drop_last().len()));
            }
        }
        if !s.contains('\n') {
            assert(!s.drop_last().contains('\n'));
            assert(s.drop_last().push(s.last()) == s);
        }
    }
}

/// The lines of parts that are no longer than `width` all fit that width; and
/// parts that hold no line break are their own lines.
pub proof fn lemma_lines_of(parts: Seq<Seq<char>>, width: nat)
    ensures
        (forall|k: int| 0 <= k < parts.len() ==> (#[trigger] parts[k]).len() <= width) ==> (forall|
            i: int,
        | 0 <= i < lines_of(parts).len() ==> fits(#[trigger] lines_of(parts)[i], width)),
        (forall|k: int| 0 <= k < parts.len() ==> !(#[trigger] parts[k]).contains('\n'))
            ==> lines_of(parts) == parts,
    decreases parts.len(),
{
    if parts.len() > 0 {
        let rest = parts.drop_first();
        lemma_lines_of(rest, width);
        lemma_split_lines(parts.first());
        if forall|k: int| 0 <= k < parts.len() ==> (#[trigger] parts[k]).len() <= width {
            assert forall|i: int| 0 <= i < lines_of(parts).len() implies fits(
                #[trigger] lines_of(parts)[i],
                width,
            ) by {
                let head = split_lines(parts.first());
                if i >= head.len() {
                    assert(lines_of(parts)[i] == lines_of(rest)[i - head.len()]);
                }
            }
        }
    }
}

/// Every line that a text takes on a console fits the width of the console.
pub proof fn lemma_wrapped_fits(s: Seq<char>, width: nat)
    requires
        width > 0,
    ensures
        forall|i: int|
            0 <= i < wrapped(s, width).len() ==> fits(#[trigger] wrapped(s, width)[i], width),
{
    lemma_chunks(trimmed(s), width);
    lemma_lines_of(chunks(trimmed(s), width), width);
}

/// A text that holds no line break and does not end in white space takes as
/// many lines as its length divided by the width, rounded up: its chunks.
pub proof fn lemma_wrapped_count(s: Seq<char>, width: nat)
    requires
        width > 0,
        !s.contains('\n'),
        s.len() == 0 || !is_white_space(s.last()),
    ensures
        wrapped(s, width) == chunks(s, width),
        wrapped(s, width).len() == (s.len() + width - 1) / (width as int),
{
    lemma_trimmed(s);
    lemma_chunks(s, width);
    let parts = chunks(s, width);
    assert forall|k: int| 0 <= k < parts.len() implies !(#[trigger] parts[k]).contains('\n') by {
        if parts[k].contains('\n') {
            let at = choose|at: int| 0 <= at < parts[k].len() && parts[k][at] == '\n';
            assert(s[chunk_start(width, k) + at] == '\n');
        }
    }
    lemma_lines_of(parts, width);
}

} // verus!
