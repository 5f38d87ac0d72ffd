//! Lines of a byte stream: where the first line of a run of bytes ends,
//! what it holds and what follows it. A line ends at a line feed. White
//! space at the end of a line, such as the carriage return of a line that
//! ends in the two bytes CR and LF, belongs to the line break and not to what
//! the line holds; white space elsewhere in a line is kept.

use vstd::prelude::*;

verus! {

/// The byte that ends a line.
pub const LINE_BREAK: u8 = 10;

/// The number of bytes before the first line break of `s`, or all of `s`
/// where it holds none.
pub open spec fn line_len(s: Seq<u8>) -> nat
    decreases s.len(),
{
    if s.len() == 0 || s[0] == LINE_BREAK {
        0
    } else {
        1 + line_len(s.drop_first())
    }
}

/// The byte `b` is white space: a blank, or one of the bytes from the tab to
/// the carriage return, the line feed among them.
pub open spec fn is_blank(b: u8) -> bool {
    b == 32 || 9 <= b <= 13
}

/// The last byte of `s` is white space.
pub open spec fn ends_blank(s: Seq<u8>) -> bool {
    s.len() > 0 && is_blank(s.last())
}

/// `s` without the white space at its end.
pub open spec fn trimmed(s: Seq<u8>) -> Seq<u8>
    decreases s.len(),
{
    if ends_blank(s) {
        trimmed(s.drop_last())
    } else {
        s
    }
}

/// `s` is what one line can hold: no byte of it is a line break, and it does
/// not end in white space.
pub open spec fn is_single_line(s: Seq<u8>) -> bool {
    &&& forall|i: int| 0 <= i < s.len() ==> s[i] != LINE_BREAK
    &&& !ends_blank(s)
}

/// The first line of `s` is ended by a line break, not by the end of `s`.
pub open spec fn line_terminated(s: Seq<u8>) -> bool {
    line_len(s) < s.len()
}

/// What the first line of `s` holds: the bytes before its line break,
/// without the white space at their end.
pub open spec fn first_line(s: Seq<u8>) -> Seq<u8> {
    trimmed(s.take(line_len(s) as int))
}

/// What follows the first line of `s` and its line break.
pub open spec fn after_line(s: Seq<u8>) -> Seq<u8> {
    if line_terminated(s) {
        s.skip(line_len(s) as int + 1)
    } else {
        Seq::empty()
    }
}

/// The first line ends within `s`, holds no line break, and is followed by
/// one wherever `s` goes on.
pub proof fn lemma_line_len(s: Seq<u8>)
    ensures
        line_len(s) <= s.len(),
        forall|i: int| 0 <= i < line_len(s) ==> s[i] != LINE_BREAK,
        line_len(s) < s.len() ==> s[line_len(s) as int] == LINE_BREAK,
    decreases s.len(),
{
    if s.len() == 0 || s[0] == LINE_BREAK {
    } else {
        let t = s.drop_first();
        lemma_line_len(t);
        assert forall|i: int| 0 <= i < line_len(s) implies s[i] != LINE_BREAK by {
            if i > 0 {
                assert(s[i] == t[i - 1]);
            }
        }
        if line_len(s) < s.len() {
            assert(s[line_len(s) as int] == t[line_len(t) as int]);
        }
    }
}

/// A position that no line break precedes, and that is the end of `s` or
/// holds a line break, is where the first line ends.
pub proof fn lemma_line_len_is(s: Seq<u8>, n: int)
    requires
        0 <= n <= s.len(),
        forall|i: int| 0 <= i < n ==> s[i] != LINE_BREAK,
        n == s.len() || s[n] == LINE_BREAK,
    ensures
        line_len(s) == n,
    decreases n,
{
    if n > 0 {
        let t = s.drop_first();
        assert forall|i: int| 0 <= i < n - 1 implies t[i] != LINE_BREAK by {
            assert(t[i] == s[i + 1]);
        }
        lemma_line_len_is(t, n - 1);
    }
}

/// Trimming takes bytes from the end only, all of them white space, and
/// leaves no white space at the end.
pub proof fn lemma_trimmed(s: Seq<u8>)
    ensures
        trimmed(s).len() <= s.len(),
        trimmed(s) == s.take(trimmed(s).len() as int),
        !ends_blank(trimmed(s)),
        forall|i: int| trimmed(s).len() <= i < s.len() ==> is_blank(s[i]),
    decreases s.len(),
{
    if ends_blank(s) {
        let t = s.drop_last();
        lemma_trimmed(t);
        assert(t.take(trimmed(t).len() as int) =~= s.take(trimmed(t).len() as int));
        assert forall|i: int| trimmed(s).len() <= i < s.len() implies is_blank(s[i]) by {
            if i < t.len() {
                assert(s[i] == t[i]);
            }
        }
    } else {
        assert(s.take(s.len() as int) =~= s);
    }
}

/// A position behind which `s` holds only white space, and before which it
/// holds none directly, is where the trimmed bytes end.
pub proof fn lemma_trimmed_is(s: Seq<u8>, n: int)
    requires
        0 <= n <= s.len(),
        forall|i: int| n <= i < s.len() ==> is_blank(s[i]),
        n == 0 || !is_blank(s[n - 1]),
    ensures
        trimmed(s) == s.take(n),
    decreases s.len() - n,
{
    if n < s.len() {
        let t = s.drop_last();
        assert forall|i: int| n <= i < t.len() implies is_blank(t[i]) by {
            assert(t[i] == s[i]);
        }
        if n > 0 {
            assert(t[n - 1] == s[n - 1]);
        }
        lemma_trimmed_is(t, n);
        assert(t.take(n) =~= s.take(n));
    } else {
        assert(s.take(n) =~= s);
    }
}

/// What the first line of `s` holds is one line, stands at the head of `s`,
/// and reading it makes `s` shorter unless `s` is empty.
pub proof fn lemma_first_line(s: Seq<u8>)
    ensures
        is_single_line(first_line(s)),
        first_line(s).len() <= line_len(s) <= s.len(),
        first_line(s) == s.take(first_line(s).len() as int),
        after_line(s).len() <= s.len(),
        s.len() > 0 ==> after_line(s).len() < s.len(),
{
    lemma_line_len(s);
    let raw = s.take(line_len(s) as int);
    lemma_trimmed(raw);
    assert(raw.take(trimmed(raw).len() as int) =~= s.take(trimmed(raw).len() as int));
    assert forall|i: int| 0 <= i < first_line(s).len() implies first_line(s)[i]
        != LINE_BREAK by {
        assert(first_line(s)[i] == s[i]);
    }
}

/// A line followed by a line break and more bytes is read back as that line,
/// with those bytes left over.
pub proof fn lemma_line_then_rest(line: Seq<u8>, rest: Seq<u8>)
    requires
        is_single_line(line),
    ensures
        line_len(line.push(LINE_BREAK) + rest) == line.len(),
        line_terminated(line.push(LINE_BREAK) + rest),
        first_line(line.push(LINE_BREAK) + rest) == line,
        after_line(line.push(LINE_BREAK) + rest) == rest,
{
    let s = line.push(LINE_BREAK) + rest;
    lemma_line_len_is(s, line.len() as int);
    assert(s.take(line.len() as int) =~= line);
    assert(after_line(s) =~= rest);
}

/// `s` is white space that can stand between what a line holds and its
/// line break: every byte is white space and none is a line break.
pub open spec fn is_padding(s: Seq<u8>) -> bool {
    forall|i: int| 0 <= i < s.len() ==> is_blank(#[trigger] s[i]) && s[i] != LINE_BREAK
}

/// A line followed by white space, a line break and more bytes is read back
/// as that line alone, with those bytes left over: the white space goes with
/// the line break.
pub proof fn lemma_padded_line_then_rest(line: Seq<u8>, pad: Seq<u8>, rest: Seq<u8>)
    requires
        is_single_line(line),
        is_padding(pad),
    ensures
        line_len((line + pad).push(LINE_BREAK) + rest) == line.len() + pad.len(),
        line_terminated((line + pad).push(LINE_BREAK) + rest),
        first_line((line + pad).push(LINE_BREAK) + rest) == line,
        after_line((line + pad).push(LINE_BREAK) + rest) == rest,
{
    let raw = line + pad;
    let s = raw.push(LINE_BREAK) + rest;
    assert forall|i: int| 0 <= i < raw.len() implies s[i] != LINE_BREAK by {
        if i < line.len() {
            assert(s[i] == line[i]);
        } else {
            assert(s[i] == pad[i - line.len()]);
        }
    }
    lemma_line_len_is(s, raw.len() as int);
    assert(s.take(raw.len() as int) =~= raw);
    assert forall|i: int| line.len() <= i < raw.len() implies is_blank(raw[i]) by {
        assert(raw[i] == pad[i - line.len()]);
    }
    if line.len() > 0 {
        assert(raw[line.len() - 1] == line.last());
    }
    lemma_trimmed_is(raw, line.len() as int);
    assert(raw.take(line.len() as int) =~= line);
    assert(after_line(s) =~= rest);
}

/// Lines joined one to the next end in white space only where one of them
/// does.
pub proof fn lemma_joined_ends(a: Seq<u8>, b: Seq<u8>)
    requires
        !ends_blank(a),
        !ends_blank(b),
    ensures
        !ends_blank(a + b),
{
    if b.len() == 0 {
        assert(a + b =~= a);
    } else {
        assert((a + b).last() == b.last());
    }
}

/// The lines `lines` one after the other, each followed by a line break.
pub open spec fn broken_lines(lines: Seq<Seq<u8>>) -> Seq<u8>
    decreases lines.len(),
{
    if lines.len() == 0 {
        Seq::empty()
    } else {
        lines[0].push(LINE_BREAK) + broken_lines(lines.drop_first())
    }
}

/// The lines `lines` one after the other, with nothing between them.
pub open spec fn joined_lines(lines: Seq<Seq<u8>>) -> Seq<u8>
    decreases lines.len(),
{
    if lines.len() == 0 {
        Seq::empty()
    } else {
        lines[0] + joined_lines(lines.drop_first())
    }
}

/// The line `line` begins with the byte `marker`.
pub open spec fn is_marked(line: Seq<u8>, marker: u8) -> bool {
    line.len() > 0 && line[0] == marker
}

/// Whether `bytes` begin with `marker`.
pub fn begins_with(bytes: &[u8], marker: u8) -> (b: bool)
    ensures
        b == is_marked(bytes@, marker),
{
    bytes.len() > 0 && bytes[0] == marker
}

/// Whether `b` is white space.
pub fn blank(b: u8) -> (r: bool)
    ensures
        r == is_blank(b),
{
    b == 32 || (9 <= b && b <= 13)
}

/// Whether `bytes` are what one line can hold.
pub fn is_line(bytes: &[u8]) -> (b: bool)
    ensures
        b == is_single_line(bytes@),
{
    let n: usize = bytes.len();
    if n > 0 && blank(bytes[n - 1]) {
        return false;
    }
    let mut i: usize = 0;
    while i < n
        invariant
            i <= n,
            n == bytes@.len(),
            forall|j: int| 0 <= j < i ==> bytes@[j] != LINE_BREAK,
        decreases n - i,
    {
        if bytes[i] == LINE_BREAK {
            return false;
        }
        i += 1;
    }
    true
}

/// Appends `bytes` to `buf`.
pub fn append_bytes(buf: &mut Vec<u8>, bytes: &[u8])
    ensures
        final(buf)@ == old(buf)@ + bytes@,
{
    buf.extend_from_slice(bytes);
    assert(buf@ =~= old(buf)@ + bytes@);
}

} // verus!
