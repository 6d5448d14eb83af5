//! Text as sequences of characters: decoding, lines, substring search and the
//! literals that numeric columns hold.

use vstd::prelude::*;

verus! {

/// The characters that a lossy UTF-8 decoding of `bytes` yields: every
/// ill-formed sequence is replaced by U+FFFD.
pub uninterp spec fn utf8_lossy(bytes: Seq<u8>) -> Seq<char>;

/// `text` without its leading and trailing Unicode white space.
pub uninterp spec fn trimmed(text: Seq<char>) -> Seq<char>;

/// `text` with every character mapped to its Unicode upper case.
pub uninterp spec fn uppercased(text: Seq<char>) -> Seq<char>;

/// Whether `c` is a letter or a number in the sense of Unicode.
pub uninterp spec fn alphanumeric(c: char) -> bool;

/// Calls `String::from_utf8_lossy` and hands the characters out one by one.
/// Trusted: the result is the decoding that `utf8_lossy` names.
#[verifier::external_body]
pub(crate) fn decode_lossy(bytes: &[u8]) -> (text: Vec<char>)
    ensures
        text@ == utf8_lossy(bytes@),
{
    String::from_utf8_lossy(bytes).chars().collect()
}

/// Calls `str::trim`. Trusted: the result is what `trimmed` names.
#[verifier::external_body]
pub(crate) fn trim(text: &str) -> (out: String)
    ensures
        out@ == trimmed(text@),
{
    text.trim().to_string()
}

/// Calls `str::to_uppercase`. Trusted: the result is what `uppercased` names.
#[verifier::external_body]
pub(crate) fn uppercase(text: &str) -> (out: String)
    ensures
        out@ == uppercased(text@),
{
    text.to_uppercase()
}

/// Calls `char::is_alphanumeric`. Trusted: the answer is what `alphanumeric`
/// names.
#[verifier::external_body]
pub(crate) fn is_alphanumeric(c: char) -> (yes: bool)
    ensures
        yes == alphanumeric(c),
{
    c.is_alphanumeric()
}

/// Calls `str::chars` and collects. Trusted: the vector holds the characters
/// of `text` in order.
#[verifier::external_body]
pub(crate) fn chars_of(text: &str) -> (chars: Vec<char>)
    ensures
        chars@ == text@,
{
    text.chars().collect()
}

/// Collects characters into a `String`. Trusted: the string holds exactly
/// `chars`, in order.
#[verifier::external_body]
pub(crate) fn string_of(chars: &Vec<char>) -> (text: String)
    ensures
        text@ == chars@,
{
    chars.iter().collect()
}

/// The views of a sequence of strings.
pub open spec fn texts(v: Seq<String>) -> Seq<Seq<char>> {
    Seq::new(v.len(), |i: int| v[i]@)
}

/// The views of a sequence of character vectors.
pub open spec fn char_rows(v: Seq<Vec<char>>) -> Seq<Seq<char>> {
    Seq::new(v.len(), |i: int| v[i]@)
}

/// Position of the first line feed in `text`, or its length when it has none.
pub open spec fn first_newline(text: Seq<char>) -> int
    decreases text.len(),
{
    if text.len() == 0 {
        0
    } else if text[0] == '\n' {
        0
    } else {
        1 + first_newline(text.skip(1))
    }
}

/// A line without the carriage return that preceded its line feed.
pub open spec fn strip_cr(line: Seq<char>) -> Seq<char> {
    if line.len() > 0 && line.last() == '\r' {
        line.drop_last()
    } else {
        line
    }
}

/// The lines of `text`. A line ends at a line feed; a carriage return right
/// before it is dropped too. The last line needs no line feed, and a text that
/// ends in one has no empty line after it.
pub open spec fn lines(text: Seq<char>) -> Seq<Seq<char>>
    decreases text.len(),
{
    if text.len() == 0 {
        Seq::empty()
    } else {
        let n = first_newline(text);
        if 0 <= n < text.len() {
            seq![strip_cr(text.subrange(0, n))] + lines(text.skip(n + 1))
        } else {
            seq![text]
        }
    }
}

/// Whether `needle` occurs in `hay` at position `at`.
pub open spec fn occurs_at(hay: Seq<char>, needle: Seq<char>, at: int) -> bool {
    0 <= at && at + needle.len() <= hay.len() && hay.subrange(at, at + needle.len()) == needle
}

/// Whether `needle` occurs somewhere in `hay`.
pub open spec fn contains(hay: Seq<char>, needle: Seq<char>) -> bool {
    exists|at: int| occurs_at(hay, needle, at)
}

/// The first line feed lies within the text, and no line feed comes before
/// it.
pub proof fn lemma_first_newline_bounds(text: Seq<char>)
    ensures
        0 <= first_newline(text) <= text.len(),
        first_newline(text) < text.len() ==> text[first_newline(text)] == '\n',
        forall|i: int| 0 <= i < first_newline(text) ==> text[i] != '\n',
    decreases text.len(),
{
    if text.len() > 0 && text[0] != '\n' {
        lemma_first_newline_bounds(text.skip(1));
        assert forall|i: int| 0 <= i < first_newline(text) implies text[i] != '\n' by {
            if i > 0 {
                assert(text.skip(1)[i - 1] == text[i]);
            }
        }
    }
}

/// Splits `text` into its lines.
pub fn split_lines(text: &Vec<char>) -> (out: Vec<Vec<char>>)
    ensures
        char_rows(out@) == lines(text@),
{
    let mut out: Vec<Vec<char>> = Vec::new();
    let mut line: Vec<char> = Vec::new();
    let mut start: usize = 0;
    let mut i: usize = 0;
    proof {
        assert(text@.skip(0) =~= text@);
        assert(char_rows(out@) =~= Seq::<Seq<char>>::empty());
    }
    while i < text.len()
        invariant
            0 <= start <= i <= text.len(),
            line@ == text@.subrange(start as int, i as int),
            forall|k: int| start <= k < i ==> text@[k] != '\n',
            char_rows(out@) + lines(text@.skip(start as int)) == lines(text@),
        decreases text.len() - i,
    {
        let c = text[i];
        if c == '\n' {
            let ghost rest = text@.skip(start as int);
            proof {
                lemma_first_newline_bounds(rest);
                let n = first_newline(rest);
                assert(rest[i - start] == '\n');
                if n < i - start {
                    assert(rest[n] == text@[start + n]);
                }
                assert(n == i - start);
                assert(rest.subrange(0, n) =~= line@);
                assert(rest.skip(n + 1) =~= text@.skip(i + 1));
            }
            let n = line.len();
            if n > 0 && line[n - 1] == '\r' {
                line.pop();
            }
            proof {
                assert(line@ == strip_cr(rest.subrange(0, first_newline(rest))));
                assert(lines(rest) == seq![line@] + lines(text@.skip(i + 1)));
                assert(char_rows(out@.push(line)) =~= char_rows(out@) + seq![line@]);
                assert(char_rows(out@) + (seq![line@] + lines(text@.skip(i + 1))) =~= (char_rows(
                    out@,
                ) + seq![line@]) + lines(text@.skip(i + 1)));
            }
            out.push(line);
            line = Vec::new();
            start = i + 1;
            proof {
                assert(text@.subrange(start as int, start as int) =~= Seq::<char>::empty());
            }
        } else {
            line.push(c);
            proof {
                assert(text@.subrange(start as int, i + 1) =~= text@.subrange(
                    start as int,
                    i as int,
                ).push(c));
            }
        }
        i = i + 1;
    }
    let ghost rest = text@.skip(start as int);
    proof {
        assert(rest =~= line@);
        if rest.len() > 0 {
            lemma_first_newline_bounds(rest);
            let n = first_newline(rest);
            if n < rest.len() {
                assert(rest[n] == text@[start + n]);
            }
            assert(lines(rest) == seq![rest]);
            assert(char_rows(out@.push(line)) =~= char_rows(out@) + seq![line@]);
        } else {
            assert(lines(rest) =~= Seq::<Seq<char>>::empty());
            assert(char_rows(out@) + lines(rest) =~= char_rows(out@));
        }
    }
    if line.len() > 0 {
        out.push(line);
    }
    out
}

/// Whether `needle` occurs in `hay` at `at`, compared character by character.
fn matches_at(hay: &Vec<char>, needle: &Vec<char>, at: usize) -> (yes: bool)
    requires
        at + needle.len() <= hay.len(),
    ensures
        yes == occurs_at(hay@, needle@, at as int),
{
    let mut k: usize = 0;
    while k < needle.len()
        invariant
            0 <= k <= needle.len(),
            at + needle.len() <= hay.len(),
            forall|j: int| 0 <= j < k ==> hay@[at + j] == needle@[j],
        decreases needle.len() - k,
    {
        if hay[at + k] != needle[k] {
            proof {
                let sub = hay@.subrange(at as int, at + needle.len());
                assert(sub[k as int] == hay@[at + k]);
            }
            return false;
        }
        k = k + 1;
    }
    proof {
        assert(hay@.subrange(at as int, at + needle.len()) =~= needle@);
    }
    true
}

/// Tells whether `needle` occurs somewhere in `hay`. The empty text occurs in
/// every text.
pub fn text_contains(hay: &Vec<char>, needle: &Vec<char>) -> (found: bool)
    ensures
        found == contains(hay@, needle@),
{
    if needle.len() > hay.len() {
        return false;
    }
    let last: usize = hay.len() - needle.len();
    let mut at: usize = 0;
    loop
        invariant
            0 <= at <= last,
            last == hay.len() - needle.len(),
            forall|j: int| 0 <= j < at ==> !occurs_at(hay@, needle@, j),
        decreases last - at,
    {
        if matches_at(hay, needle, at) {
            return true;
        }
        if at == last {
            return false;
        }
        at = at + 1;
    }
}

/// Position of the first `sep` in `text`, or its length when it has none.
pub open spec fn first_index_of(text: Seq<char>, sep: char) -> int
    decreases text.len(),
{
    if text.len() == 0 {
        0
    } else if text[0] == sep {
        0
    } else {
        1 + first_index_of(text.skip(1), sep)
    }
}

/// The pieces of `text` between the occurrences of `sep`. There is always a
/// piece: a text without `sep` is its own only piece, and the empty text has
/// one empty piece.
pub open spec fn split(text: Seq<char>, sep: char) -> Seq<Seq<char>>
    decreases text.len(),
{
    let n = first_index_of(text, sep);
    if 0 <= n < text.len() {
        seq![text.subrange(0, n)] + split(text.skip(n + 1), sep)
    } else {
        seq![text]
    }
}

/// The pieces put together again, with `sep` between two neighbours.
pub open spec fn join(pieces: Seq<Seq<char>>, sep: Seq<char>) -> Seq<char>
    decreases pieces.len(),
{
    if pieces.len() == 0 {
        Seq::empty()
    } else if pieces.len() == 1 {
        pieces[0]
    } else {
        join(pieces.drop_last(), sep) + sep + pieces.last()
    }
}

/// `text` without the run of `c` that it starts with.
pub open spec fn strip_leading(text: Seq<char>, c: char) -> Seq<char>
    decreases text.len(),
{
    if text.len() > 0 && text[0] == c {
        strip_leading(text.skip(1), c)
    } else {
        text
    }
}

/// `text` without the run of `c` that it ends with.
pub open spec fn strip_trailing(text: Seq<char>, c: char) -> Seq<char>
    decreases text.len(),
{
    if text.len() > 0 && text.last() == c {
        strip_trailing(text.drop_last(), c)
    } else {
        text
    }
}

/// `text` without the runs of `c` at its start and at its end.
pub open spec fn strip_both(text: Seq<char>, c: char) -> Seq<char> {
    strip_trailing(strip_leading(text, c), c)
}

/// The first `sep` lies within the text, and no `sep` comes before it.
pub proof fn lemma_first_index_of_bounds(text: Seq<char>, sep: char)
    ensures
        0 <= first_index_of(text, sep) <= text.len(),
        first_index_of(text, sep) < text.len() ==> text[first_index_of(text, sep)] == sep,
        forall|i: int| 0 <= i < first_index_of(text, sep) ==> text[i] != sep,
    decreases text.len(),
{
    if text.len() > 0 && text[0] != sep {
        lemma_first_index_of_bounds(text.skip(1), sep);
        assert forall|i: int| 0 <= i < first_index_of(text, sep) implies text[i] != sep by {
            if i > 0 {
                assert(text.skip(1)[i - 1] == text[i]);
            }
        }
    }
}

/// Splits `text` at every `sep`.
pub fn split_at_char(text: &Vec<char>, sep: char) -> (out: Vec<Vec<char>>)
    ensures
        char_rows(out@) == split(text@, sep),
        out@.len() >= 1,
{
    let mut out: Vec<Vec<char>> = Vec::new();
    let mut piece: Vec<char> = Vec::new();
    let mut start: usize = 0;
    let mut i: usize = 0;
    proof {
        assert(text@.skip(0) =~= text@);
        assert(char_rows(out@) =~= Seq::<Seq<char>>::empty());
    }
    while i < text.len()
        invariant
            0 <= start <= i <= text.len(),
            piece@ == text@.subrange(start as int, i as int),
            forall|k: int| start <= k < i ==> text@[k] != sep,
            char_rows(out@) + split(text@.skip(start as int), sep) == split(text@, sep),
        decreases text.len() - i,
    {
        let c = text[i];
        if c == sep {
            let ghost rest = text@.skip(start as int);
            proof {
                lemma_first_index_of_bounds(rest, sep);
                let n = first_index_of(rest, sep);
                assert(rest[i - start] == sep);
                if n < i - start {
                    assert(rest[n] == text@[start + n]);
                }
                assert(n == i - start);
                assert(rest.subrange(0, n) =~= piece@);
                assert(rest.skip(n + 1) =~= text@.skip(i + 1));
                assert(char_rows(out@.push(piece)) =~= char_rows(out@) + seq![piece@]);
                assert(char_rows(out@) + (seq![piece@] + split(text@.skip(i + 1), sep)) =~= (
                char_rows(out@) + seq![piece@]) + split(text@.skip(i + 1), sep));
            }
            out.push(piece);
            piece = Vec::new();
            start = i + 1;
            proof {
                assert(text@.subrange(start as int, start as int) =~= Seq::<char>::empty());
            }
        } else {
            piece.push(c);
            proof {
                assert(text@.subrange(start as int, i + 1) =~= text@.subrange(
                    start as int,
                    i as int,
                ).push(c));
            }
        }
        i = i + 1;
    }
    proof {
        let rest = text@.skip(start as int);
        assert(rest =~= piece@);
        lemma_first_index_of_bounds(rest, sep);
        let n = first_index_of(rest, sep);
        if n < rest.len() {
            assert(rest[n] == text@[start + n]);
        }
        assert(split(rest, sep) == seq![rest]);
        assert(char_rows(out@.push(piece)) =~= char_rows(out@) + seq![piece@]);
    }
    out.push(piece);
    out
}

/// Puts `pieces` together, with `sep` between two neighbours.
pub fn join_with(pieces: &Vec<Vec<char>>, sep: &Vec<char>) -> (out: Vec<char>)
    ensures
        out@ == join(char_rows(pieces@), sep@),
{
    let mut out: Vec<char> = Vec::new();
    let ghost all = char_rows(pieces@);
    let mut i: usize = 0;
    proof {
        assert(all.subrange(0, 0) =~= Seq::<Seq<char>>::empty());
    }
    while i < pieces.len()
        invariant
            0 <= i <= pieces.len(),
            all == char_rows(pieces@),
            out@ == join(all.subrange(0, i as int), sep@),
        decreases pieces.len() - i,
    {
        let ghost before = out@;
        let ghost upto = all.subrange(0, i + 1);
        proof {
            assert(upto.drop_last() =~= all.subrange(0, i as int));
            assert(upto.last() == pieces@[i as int]@);
        }
        if i > 0 {
            append_chars(&mut out, sep);
        }
        append_chars(&mut out, &pieces[i]);
        proof {
            if i == 0 {
                assert(upto[0] == pieces@[0]@);
                assert(before + pieces@[0]@ =~= pieces@[0]@);
            }
        }
        i = i + 1;
    }
    proof {
        assert(all.subrange(0, i as int) =~= all);
    }
    out
}

/// Appends the characters of `more` to `out`.
pub fn append_chars(out: &mut Vec<char>, more: &Vec<char>)
    ensures
        final(out)@ == old(out)@ + more@,
{
    let mut i: usize = 0;
    proof {
        assert(more@.subrange(0, 0) =~= Seq::<char>::empty());
        assert(out@ + Seq::<char>::empty() =~= out@);
    }
    while i < more.len()
        invariant
            0 <= i <= more.len(),
            out@ == old(out)@ + more@.subrange(0, i as int),
        decreases more.len() - i,
    {
        out.push(more[i]);
        proof {
            assert(more@.subrange(0, i + 1) =~= more@.subrange(0, i as int).push(more@[i as int]));
            assert(out@ =~= old(out)@ + more@.subrange(0, i + 1));
        }
        i = i + 1;
    }
    proof {
        assert(more@.subrange(0, i as int) =~= more@);
    }
}

/// Removes the runs of `c` at the start and at the end of `text`.
pub fn strip_char(text: &Vec<char>, c: char) -> (out: Vec<char>)
    ensures
        out@ == strip_both(text@, c),
{
    let mut from: usize = 0;
    proof {
        assert(text@.skip(0) =~= text@);
    }
    while from < text.len() && text[from] == c
        invariant
            0 <= from <= text.len(),
            strip_leading(text@, c) == strip_leading(text@.skip(from as int), c),
        decreases text.len() - from,
    {
        proof {
            assert(text@.skip(from as int)[0] == text@[from as int]);
            assert(text@.skip(from as int).skip(1) =~= text@.skip(from + 1));
        }
        from = from + 1;
    }
    proof {
        if from < text.len() {
            assert(text@.skip(from as int)[0] == text@[from as int]);
        }
        assert(strip_leading(text@, c) == text@.skip(from as int));
        assert(text@.skip(from as int) =~= text@.subrange(from as int, text.len() as int));
    }
    let mut to: usize = text.len();
    while to > from && text[to - 1] == c
        invariant
            from <= to <= text.len(),
            strip_trailing(text@.subrange(from as int, text.len() as int), c) == strip_trailing(
                text@.subrange(from as int, to as int),
                c,
            ),
        decreases to - from,
    {
        proof {
            let part = text@.subrange(from as int, to as int);
            assert(part.last() == text@[to - 1]);
            assert(part.drop_last() =~= text@.subrange(from as int, to - 1));
        }
        to = to - 1;
    }
    proof {
        let part = text@.subrange(from as int, to as int);
        if to > from {
            assert(part.last() == text@[to - 1]);
        }
        assert(strip_trailing(part, c) == part);
    }
    let mut out: Vec<char> = Vec::new();
    let mut i: usize = from;
    proof {
        assert(text@.subrange(from as int, from as int) =~= Seq::<char>::empty());
    }
    while i < to
        invariant
            from <= i <= to <= text.len(),
            out@ == text@.subrange(from as int, i as int),
        decreases to - i,
    {
        out.push(text[i]);
        proof {
            assert(text@.subrange(from as int, i + 1) =~= text@.subrange(
                from as int,
                i as int,
            ).push(text@[i as int]));
        }
        i = i + 1;
    }
    out
}

} // verus!
