use vstd::prelude::*;
use vstd::string::StrSliceExecFns;
use vstd::string::StringExecFns;

verus! {

/// Unicode's `White_Space` characters.
pub open spec fn is_whitespace(c: char) -> bool {
    let u = c as u32;
    ||| 9 <= u <= 13
    ||| u == 32
    ||| u == 0x85
    ||| u == 0xA0
    ||| u == 0x1680
    ||| 0x2000 <= u <= 0x200A
    ||| u == 0x2028
    ||| u == 0x2029
    ||| u == 0x202F
    ||| u == 0x205F
    ||| u == 0x3000
}

pub open spec fn trim_start(s: Seq<char>) -> Seq<char>
    decreases s.len(),
{
    if s.len() > 0 && is_whitespace(s[0]) {
        trim_start(s.drop_first())
    } else {
        s
    }
}

pub open spec fn trim_end(s: Seq<char>) -> Seq<char>
    decreases s.len(),
{
    if s.len() > 0 && is_whitespace(s.last()) {
        trim_end(s.drop_last())
    } else {
        s
    }
}

/// `s` without leading and trailing whitespace.
pub open spec fn trim(s: Seq<char>) -> Seq<char> {
    trim_end(trim_start(s))
}

/// The length of the first line of `s`: the index of its first newline, or
/// its length when it has none.
pub open spec fn line_end(s: Seq<char>) -> nat
    decreases s.len(),
{
    if s.len() == 0 || s[0] == '\n' {
        0
    } else {
        1 + line_end(s.drop_first())
    }
}

/// A documentation text as configuration-file comments: each line, trimmed,
/// as `# line` on a line of its own after a newline; blank lines dropped.
pub open spec fn comment_lines(s: Seq<char>) -> Seq<char>
    decreases s.len(),
{
    let i = line_end(s);
    let line = trim(s.take(i as int));
    let head = if line.len() == 0 {
        Seq::empty()
    } else {
        seq!['\n', '#', ' '] + line
    };
    if i >= s.len() {
        head
    } else {
        head + comment_lines(s.skip(i as int + 1))
    }
}

/// The UTF-16 code units of one character.
pub open spec fn utf16_units(c: char) -> Seq<u16> {
    let u = c as u32;
    if u < 0x10000 {
        seq![u as u16]
    } else {
        let v = (u - 0x10000) as u32;
        seq![(0xD800 + v / 0x400) as u16, (0xDC00 + v % 0x400) as u16]
    }
}

/// The UTF-16 encoding of a text.
pub open spec fn utf16_of(s: Seq<char>) -> Seq<u16>
    decreases s.len(),
{
    if s.len() == 0 {
        Seq::empty()
    } else {
        utf16_of(s.drop_last()) + utf16_units(s.last())
    }
}

fn is_whitespace_char(c: char) -> (r: bool)
    ensures
        r == is_whitespace(c),
{
    let u = c as u32;
    (9 <= u && u <= 13) || u == 32 || u == 0x85 || u == 0xA0 || u == 0x1680 || (0x2000 <= u && u
        <= 0x200A) || u == 0x2028 || u == 0x2029 || u == 0x202F || u == 0x205F || u == 0x3000
}

proof fn lemma_line_end(s: Seq<char>, m: nat)
    requires
        m <= s.len(),
        forall|k: int| 0 <= k < m ==> s[k] != '\n',
        m == s.len() || s[m as int] == '\n',
    ensures
        line_end(s) == m,
    decreases m,
{
    if m > 0 {
        assert forall|k: int| 0 <= k < m - 1 implies s.drop_first()[k] != '\n' by {
            assert(s.drop_first()[k] == s[k + 1]);
        }
        if m < s.len() {
            assert(s.drop_first()[m - 1] == s[m as int]);
        }
        lemma_line_end(s.drop_first(), (m - 1) as nat);
    }
}

/// The bounds, within `s[from..to]`, of that piece without leading and
/// trailing whitespace.
fn trim_bounds(s: &str, from: usize, to: usize) -> (r: (usize, usize))
    requires
        from <= to <= s@.len(),
    ensures
        from <= r.0 <= r.1 <= to,
        trim(s@.subrange(from as int, to as int)) == s@.subrange(r.0 as int, r.1 as int),
{
    let mut a = from;
    while a < to && is_whitespace_char(s.get_char(a))
        invariant
            from <= a <= to <= s@.len(),
            trim_start(s@.subrange(from as int, to as int)) == trim_start(
                s@.subrange(a as int, to as int),
            ),
        decreases to - a,
    {
        assert(s@.subrange(a as int, to as int).drop_first() == s@.subrange(a + 1, to as int));
        a += 1;
    }
    let mut b = to;
    while b > a && is_whitespace_char(s.get_char(b - 1))
        invariant
            from <= a <= b <= to <= s@.len(),
            trim_start(s@.subrange(from as int, to as int)) == s@.subrange(a as int, to as int),
            trim(s@.subrange(from as int, to as int)) == trim_end(s@.subrange(a as int, b as int)),
        decreases b - a,
    {
        assert(s@.subrange(a as int, b as int).drop_last() == s@.subrange(a as int, b - 1));
        b -= 1;
    }
    (a, b)
}

/// Folds a field's documentation into configuration-file comments: each
/// non-blank line, trimmed, becomes `# line`, every one after a newline.
pub fn fold_doc(doc: &str) -> (r: String)
    ensures
        r@ == comment_lines(doc@),
{
    let n = doc.unicode_len();
    let prefix = "\n# ";
    proof {
        reveal_strlit("\n# ");
    }
    let mut out = String::new();
    let mut start: usize = 0;
    proof {
        assert(doc@.skip(0) == doc@);
        assert(out@ + comment_lines(doc@) == comment_lines(doc@));
    }
    loop
        invariant
            n == doc@.len(),
            prefix@ == seq!['\n', '#', ' '],
            start <= n,
            out@ + comment_lines(doc@.skip(start as int)) == comment_lines(doc@),
        decreases n - start,
    {
        let ghost rest = doc@.skip(start as int);
        let mut j = start;
        while j < n && doc.get_char(j) != '\n'
            invariant
                n == doc@.len(),
                start <= j <= n,
                forall|k: int| start <= k < j ==> doc@[k] != '\n',
            decreases n - j,
        {
            j += 1;
        }
        proof {
            assert forall|k: int| 0 <= k < j - start implies rest[k] != '\n' by {
                assert(rest[k] == doc@[start + k]);
            }
            if j < n {
                assert(rest[j - start] == doc@[j as int]);
            }
            lemma_line_end(rest, (j - start) as nat);
            assert(rest.take(j - start) == doc@.subrange(start as int, j as int));
        }
        let (a, b) = trim_bounds(doc, start, j);
        let ghost line = doc@.subrange(a as int, b as int);
        let ghost before = out@;
        if a < b {
            out.append(prefix);
            out.append(doc.substring_char(a, b));
            assert(out@ == before + (seq!['\n', '#', ' '] + line));
        }
        let ghost head = if line.len() == 0 {
            Seq::<char>::empty()
        } else {
            seq!['\n', '#', ' '] + line
        };
        assert(out@ == before + head);
        if j >= n {
            assert(comment_lines(rest) == head);
            return out;
        }
        proof {
            assert(rest.skip(j - start + 1) == doc@.skip(j + 1));
            assert(comment_lines(rest) == head + comment_lines(doc@.skip(j + 1)));
            assert(before + (head + comment_lines(doc@.skip(j + 1))) == (before + head)
                + comment_lines(doc@.skip(j + 1)));
        }
        start = j + 1;
    }
}

/// A path as a zero-terminated UTF-16 string, the form that wide-character
/// system calls take.
pub fn encode_path(path: &str) -> (r: Vec<u16>)
    ensures
        r@ == utf16_of(path@).push(0),
{
    let n = path.unicode_len();
    let mut r: Vec<u16> = Vec::new();
    let mut i: usize = 0;
    while i < n
        invariant
            n == path@.len(),
            i <= n,
            r@ == utf16_of(path@.take(i as int)),
        decreases n - i,
    {
        let c = path.get_char(i);
        let u = c as u32;
        let ghost before = r@;
        if u < 0x10000 {
            r.push(u as u16);
        } else {
            let v = u - 0x10000;
            r.push((0xD800 + v / 0x400) as u16);
            r.push((0xDC00 + v % 0x400) as u16);
        }
        assert(r@ == before + utf16_units(c));
        assert(path@.take(i + 1).drop_last() == path@.take(i as int));
        i += 1;
    }
    assert(path@.take(n as int) == path@);
    r.push(0);
    r
}

} // verus!
