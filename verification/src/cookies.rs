//! The cookie jar: from the text of a jar in the Netscape format to the value
//! of a `Cookie` header.
//!
//! The lines of a jar end in a carriage return and a line feed. A line that
//! is empty or starts with `#` is skipped. Any other line counts if it has
//! seven columns, each set off from the next by one white-space character;
//! the sixth column is the name of a cookie and the seventh its value.

use vstd::prelude::*;
use vstd::string::{StrSliceExecFns, StringExecFns};
use crate::text::chars_of;

verus! {

/// A white-space character.
pub open spec fn is_space(c: char) -> bool {
    let u = c as u32;
    ||| 0x09 <= u <= 0x0d
    ||| u == 0x20
    ||| u == 0x85
    ||| u == 0xa0
    ||| u == 0x1680
    ||| 0x2000 <= u <= 0x200a
    ||| u == 0x2028
    ||| u == 0x2029
    ||| u == 0x202f
    ||| u == 0x205f
    ||| u == 0x3000
}

/// A line break starts at position `i`.
pub open spec fn breaks_at(text: Seq<char>, i: int) -> bool {
    0 <= i && i + 1 < text.len() && text[i] == '\r' && text[i + 1] == '\n'
}

/// The positions before `n` at which a line break starts, in order.
pub open spec fn breaks(text: Seq<char>, n: int) -> Seq<int>
    decreases n,
{
    if n <= 0 {
        Seq::empty()
    } else if breaks_at(text, n - 1) {
        breaks(text, n - 1).push(n - 1)
    } else {
        breaks(text, n - 1)
    }
}

/// The positions before `n` that hold white space, in order.
pub open spec fn spaces(line: Seq<char>, n: int) -> Seq<int>
    decreases n,
{
    if n <= 0 {
        Seq::empty()
    } else if is_space(line[n - 1]) {
        spaces(line, n - 1).push(n - 1)
    } else {
        spaces(line, n - 1)
    }
}

/// Line `k` of a text: what stands between the break before it and the break
/// after it.
pub open spec fn line(text: Seq<char>, k: int) -> Seq<char> {
    let b = breaks(text, text.len() as int);
    text.subrange(
        if k == 0 {
            0
        } else {
            b[k - 1] + 2
        },
        if k == b.len() {
            text.len() as int
        } else {
            b[k]
        },
    )
}

/// Number of lines of a text: one more than it has line breaks.
pub open spec fn line_count(text: Seq<char>) -> int {
    breaks(text, text.len() as int).len() as int + 1
}

/// The cookie of a line, as `name=value`, where the line holds one.
pub open spec fn cookie_of(line: Seq<char>) -> Option<Seq<char>> {
    let s = spaces(line, line.len() as int);
    if line.len() == 0 || line[0] == '#' || s.len() != 6 {
        None
    } else {
        Some(line.subrange(s[4] + 1, s[5]) + seq!['='] + line.subrange(s[5] + 1, line.len() as int))
    }
}

/// The cookies of the first `k` lines of a text, each followed by `; `.
pub open spec fn cookies_upto(text: Seq<char>, k: int) -> Seq<char>
    decreases k,
{
    if k <= 0 {
        Seq::empty()
    } else {
        match cookie_of(line(text, k - 1)) {
            Some(c) => cookies_upto(text, k - 1) + c + seq![';', ' '],
            None => cookies_upto(text, k - 1),
        }
    }
}

/// The value of the `Cookie` header for a jar: its cookies in the order of
/// their lines, joined by `; `.
pub open spec fn cookie_header_of(text: Seq<char>) -> Seq<char> {
    let all = cookies_upto(text, line_count(text));
    if all.len() >= 2 {
        all.take(all.len() - 2)
    } else {
        all
    }
}

/// Tells white space from other characters.
pub fn is_white_space(c: char) -> (r: bool)
    ensures
        r == is_space(c),
{
    let u = c as u32;
    (0x09 <= u && u <= 0x0d) || u == 0x20 || u == 0x85 || u == 0xa0 || u == 0x1680 || (0x2000 <= u && u <= 0x200a)
        || u == 0x2028 || u == 0x2029 || u == 0x202f || u == 0x205f || u == 0x3000
}

/// The positions of the line breaks of a text.
fn find_breaks(chars: &Vec<char>) -> (b: Vec<usize>)
    ensures
        b@.len() == breaks(chars@, chars@.len() as int).len(),
        forall|k: int| 0 <= k < b@.len() ==> b@[k] as int == #[trigger] breaks(chars@, chars@.len() as int)[k],
        forall|k: int| 0 <= k < b@.len() ==> (#[trigger] b@[k]) + 1 < chars@.len(),
        forall|j: int, k: int| 0 <= j < k < b@.len() ==> (#[trigger] b@[j]) + 2 <= #[trigger] b@[k],
{
    let mut b: Vec<usize> = Vec::new();
    let mut i: usize = 0;
    while i < chars.len()
        invariant
            i <= chars@.len(),
            b@.len() == breaks(chars@, i as int).len(),
            forall|k: int| 0 <= k < b@.len() ==> b@[k] as int == #[trigger] breaks(chars@, i as int)[k],
            forall|k: int| 0 <= k < b@.len() ==> (#[trigger] b@[k]) + 1 < chars@.len() && b@[k] < i,
            forall|k: int| 0 <= k < b@.len() ==> breaks_at(chars@, #[trigger] b@[k] as int),
            forall|j: int, k: int| 0 <= j < k < b@.len() ==> (#[trigger] b@[j]) + 2 <= #[trigger] b@[k],
        decreases chars@.len() - i,
    {
        if chars[i] == '\r' && i + 1 < chars.len() && chars[i + 1] == '\n' {
            proof {
                if b@.len() > 0 {
                    let last = b@[b@.len() - 1];
                    assert(breaks_at(chars@, last as int));
                }
            }
            b.push(i);
        }
        i = i + 1;
    }
    b
}

/// Appends the cookie of the line that runs from `from` to `to`, followed by
/// `; `, where the line holds one.
fn append_cookie(out: &mut String, jar: &str, chars: &Vec<char>, from: usize, to: usize)
    requires
        chars@ == jar@,
        from <= to <= chars@.len(),
    ensures
        final(out)@ == old(out)@ + (match cookie_of(chars@.subrange(from as int, to as int)) {
            Some(c) => c + seq![';', ' '],
            None => Seq::empty(),
        }),
{
    let ghost row = chars@.subrange(from as int, to as int);
    if from == to || chars[from] == '#' {
        assert(row.len() == 0 || row[0] == '#');
        assert(out@ =~= old(out)@ + Seq::<char>::empty());
        return ;
    }
    let mut count: usize = 0;
    let mut fifth: usize = 0;
    let mut sixth: usize = 0;
    let mut i: usize = from;
    while i < to
        invariant
            from <= i <= to <= chars@.len(),
            row == chars@.subrange(from as int, to as int),
            count == spaces(row, i - from).len(),
            count <= i - from,
            count >= 5 ==> from <= fifth < i && fifth - from == spaces(row, i - from)[4],
            count >= 6 ==> fifth < sixth < i && sixth - from == spaces(row, i - from)[5],
        decreases to - i,
    {
        if is_white_space(chars[i]) {
            assert(is_space(row[i - from]));
            if count == 4 {
                fifth = i;
            } else if count == 5 {
                sixth = i;
            }
            count = count + 1;
        }
        i = i + 1;
    }
    if count != 6 {
        assert(out@ =~= old(out)@ + Seq::<char>::empty());
        return ;
    }
    proof {
        reveal_strlit("=");
        reveal_strlit("; ");
    }
    let name = jar.substring_char(fifth + 1, sixth);
    let value = jar.substring_char(sixth + 1, to);
    out.append(name);
    out.append("=");
    out.append(value);
    out.append("; ");
    proof {
        let s = spaces(row, row.len() as int);
        assert(name@ =~= row.subrange(s[4] + 1, s[5]));
        assert(value@ =~= row.subrange(s[5] + 1, row.len() as int));
        assert(out@ =~= old(out)@ + (cookie_of(row)->0 + seq![';', ' ']));
    }
}

/// Builds the value of the `Cookie` header from the text of a cookie jar.
pub fn cookie_header(jar: &str) -> (header: String)
    ensures
        header@ == cookie_header_of(jar@),
{
    let chars = chars_of(jar);
    let b = find_breaks(&chars);
    let ghost text = jar@;
    let ghost all_breaks = breaks(text, text.len() as int);
    let mut out = String::new();
    let mut k: usize = 0;
    let mut from: usize = 0;
    let end: usize = chars.len();
    while k < b.len()
        invariant
            end == chars@.len(),
            chars@ == text,
            text == jar@,
            all_breaks == breaks(text, text.len() as int),
            b@.len() == all_breaks.len(),
            forall|m: int| 0 <= m < b@.len() ==> b@[m] as int == #[trigger] all_breaks[m],
            forall|m: int| 0 <= m < b@.len() ==> (#[trigger] b@[m]) + 1 < chars@.len(),
            forall|j: int, m: int| 0 <= j < m < b@.len() ==> (#[trigger] b@[j]) + 2 <= #[trigger] b@[m],
            k <= b@.len(),
            from <= chars@.len(),
            from == (if k == 0 {
                0
            } else {
                all_breaks[k - 1] + 2
            }),
            out@ == cookies_upto(text, k as int),
        decreases b@.len() - k,
    {
        let to = b[k];
        proof {
            if k > 0 {
                assert(b@[k - 1] + 2 <= b@[k as int]);
            }
            assert(b@[k as int] + 1 < chars@.len());
            assert(line(text, k as int) == text.subrange(from as int, to as int));
        }
        append_cookie(&mut out, jar, &chars, from, to);
        from = to + 2;
        k = k + 1;
    }
    proof {
        assert(line(text, k as int) == text.subrange(from as int, text.len() as int));
    }
    append_cookie(&mut out, jar, &chars, from, end);
    assert(out@ == cookies_upto(text, line_count(text)));
    let n = out.as_str().unicode_len();
    if n >= 2 {
        let header = String::from_str(out.as_str().substring_char(0, n - 2));
        assert(header@ =~= cookie_header_of(text));
        header
    } else {
        out
    }
}

} // verus!
