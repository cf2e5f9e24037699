//! Small text utilities shared by the splitter, the builtins and the editor:
//! whitespace classification, joining word lists, and building strings from
//! character buffers.

use vstd::prelude::*;

verus! {

/// The Unicode white-space characters, as `char::is_whitespace` recognises
/// them: the ASCII space and control whitespace, NEL, NBSP, and the
/// white-space code points of the General Punctuation and CJK blocks.
pub open spec fn is_space_char(c: char) -> bool {
    let u = c as u32;
    u == 0x20 || (0x09 <= u && u <= 0x0D) || u == 0x85 || u == 0xA0 || u == 0x1680 || (0x2000
        <= u && u <= 0x200A) || u == 0x2028 || u == 0x2029 || u == 0x202F || u == 0x205F || u
        == 0x3000
}

/// Whitespace test used by the word splitter and by trimming.
pub fn is_space(c: char) -> (r: bool)
    ensures
        r == is_space_char(c),
{
    let u = c as u32;
    u == 0x20 || (0x09 <= u && u <= 0x0D) || u == 0x85 || u == 0xA0 || u == 0x1680 || (0x2000 <= u
        && u <= 0x200A) || u == 0x2028 || u == 0x2029 || u == 0x202F || u == 0x205F || u == 0x3000
}

/// Relies on std's `FromIterator<char> for String`: collecting chars yields
/// the string of exactly those characters in order.
#[verifier::external_body]
pub fn chars_to_string(v: &Vec<char>) -> (s: String)
    ensures
        s@ == v@,
{
    v.iter().collect()
}

/// Character-by-character string equality.
pub fn str_eq(a: &str, b: &str) -> (r: bool)
    ensures
        r == (a@ == b@),
{
    let na = a.unicode_len();
    let nb = b.unicode_len();
    if na != nb {
        return false;
    }
    let mut i: usize = 0;
    while i < na
        invariant
            i <= na,
            na == a@.len(),
            na == b@.len(),
            forall|j: int| 0 <= j < i ==> a@[j] == b@[j],
        decreases na - i,
    {
        if a.get_char(i) != b.get_char(i) {
            return false;
        }
        i += 1;
    }
    proof {
        assert(a@ =~= b@);
    }
    true
}

/// Appends the string's characters to the character buffer.
pub fn push_str_chars(v: &mut Vec<char>, s: &str)
    ensures
        final(v)@ == old(v)@ + s@,
{
    let n = s.unicode_len();
    let mut j: usize = 0;
    proof {
        assert(v@ =~= old(v)@ + s@.take(0));
    }
    while j < n
        invariant
            j <= n,
            n == s@.len(),
            v@ == old(v)@ + s@.take(j as int),
        decreases n - j,
    {
        v.push(s.get_char(j));
        proof {
            assert(old(v)@ + s@.take(j as int + 1) =~= (old(v)@ + s@.take(j as int)).push(
                s@[j as int],
            ));
        }
        j += 1;
    }
    proof {
        assert(s@.take(n as int) =~= s@);
    }
}

/// The words joined with the separator between consecutive words.
pub open spec fn join_with(words: Seq<Seq<char>>, sep: Seq<char>) -> Seq<char>
    decreases words.len(),
{
    if words.len() == 0 {
        Seq::empty()
    } else if words.len() == 1 {
        words[0]
    } else {
        words[0] + sep + join_with(words.skip(1), sep)
    }
}

/// Joins the words with the separator between consecutive words.
pub fn join_words(words: &Vec<String>, sep: &str) -> (r: String)
    ensures
        r@ == join_with(words.deep_view(), sep@),
{
    let mut out = String::new();
    let mut i: usize = 0;
    while i < words.len()
        invariant
            i <= words.len(),
            i == 0 ==> out@ == Seq::<char>::empty(),
            0 < i <= words.len() ==> out@ == join_with(words.deep_view().take(i as int), sep@),
        decreases words.len() - i,
    {
        if i > 0 {
            out.append(sep);
        }
        out.append(words[i].as_str());
        proof {
            let ws = words.deep_view();
            if i > 0 {
                lemma_join_take_step(ws, sep@, i as int);
            } else {
                assert(ws.take(1) =~= seq![ws[0]]);
                assert(join_with(ws.take(1), sep@) == ws[0]);
            }
        }
        i += 1;
    }
    proof {
        if words.len() > 0 {
            assert(words.deep_view().take(words.len() as int) =~= words.deep_view());
        }
    }
    out
}

/// The string with its leading whitespace removed.
pub open spec fn trim_front(s: Seq<char>) -> Seq<char>
    decreases s.len(),
{
    if s.len() > 0 && is_space_char(s[0]) {
        trim_front(s.skip(1))
    } else {
        s
    }
}

/// The string with its trailing whitespace removed.
pub open spec fn trim_back(s: Seq<char>) -> Seq<char>
    decreases s.len(),
{
    if s.len() > 0 && is_space_char(s[s.len() - 1]) {
        trim_back(s.drop_last())
    } else {
        s
    }
}

/// The string with leading and trailing whitespace removed.
pub open spec fn trim_spec(s: Seq<char>) -> Seq<char> {
    trim_back(trim_front(s))
}

/// Removes leading and trailing whitespace.
pub fn trim_spaces(s: &str) -> (r: String)
    ensures
        r@ == trim_spec(s@),
{
    let n = s.unicode_len();
    let mut start: usize = 0;
    proof {
        assert(s@.skip(0) =~= s@);
    }
    while start < n && is_space(s.get_char(start))
        invariant
            start <= n,
            n == s@.len(),
            trim_front(s@) == trim_front(s@.skip(start as int)),
        decreases n - start,
    {
        proof {
            assert(s@.skip(start as int)[0] == s@[start as int]);
            assert(s@.skip(start as int).skip(1) =~= s@.skip(start as int + 1));
        }
        start += 1;
    }
    proof {
        if start == n {
            assert(s@.skip(start as int) =~= Seq::<char>::empty());
        }
        assert(trim_front(s@) == s@.skip(start as int));
    }
    let ghost t = s@.skip(start as int);
    let mut end: usize = n;
    proof {
        assert(t.take(n - start as int) =~= t);
    }
    while end > start && is_space(s.get_char(end - 1))
        invariant
            start <= end <= n,
            n == s@.len(),
            t == s@.skip(start as int),
            trim_back(t) == trim_back(t.take(end - start as int)),
        decreases end,
    {
        proof {
            let m = end - 1 - start as int;
            assert(t.take(m + 1).drop_last() =~= t.take(m));
            assert(t.take(m + 1)[m] == s@[end - 1]);
        }
        end -= 1;
    }
    proof {
        let m = end - start as int;
        if end > start {
            assert(t.take(m)[m - 1] == s@[end - 1]);
            assert(!is_space_char(t.take(m)[m - 1]));
        }
        assert(trim_back(t.take(m)) == t.take(m));
        assert(t.take(m) =~= s@.subrange(start as int, end as int));
    }
    let piece = s.substring_char(start, end);
    String::from_str(piece)
}

/// The decimal digit characters.
pub open spec fn digit_char(d: int) -> char {
    if d == 0 {
        '0'
    } else if d == 1 {
        '1'
    } else if d == 2 {
        '2'
    } else if d == 3 {
        '3'
    } else if d == 4 {
        '4'
    } else if d == 5 {
        '5'
    } else if d == 6 {
        '6'
    } else if d == 7 {
        '7'
    } else if d == 8 {
        '8'
    } else {
        '9'
    }
}

/// The decimal rendering of a number, most significant digit first, with no
/// leading zeros (zero itself rendered as one digit).
pub open spec fn dec_digits(n: int) -> Seq<char>
    decreases n,
{
    if n < 10 {
        seq![digit_char(n)]
    } else {
        dec_digits(n / 10).push(digit_char(n % 10))
    }
}

/// One decimal digit as a character.
fn digit_to_char(d: usize) -> (c: char)
    requires
        d < 10,
    ensures
        c == digit_char(d as int),
{
    if d == 0 {
        '0'
    } else if d == 1 {
        '1'
    } else if d == 2 {
        '2'
    } else if d == 3 {
        '3'
    } else if d == 4 {
        '4'
    } else if d == 5 {
        '5'
    } else if d == 6 {
        '6'
    } else if d == 7 {
        '7'
    } else if d == 8 {
        '8'
    } else {
        '9'
    }
}

/// The decimal digits of `n` as characters, most significant first.
pub fn dec_chars(n: usize) -> (v: Vec<char>)
    ensures
        v@ == dec_digits(n as int),
    decreases n,
{
    if n < 10 {
        let mut v: Vec<char> = Vec::new();
        v.push(digit_to_char(n));
        proof {
            assert(v@ =~= seq![digit_char(n as int)]);
        }
        v
    } else {
        let mut v = dec_chars(n / 10);
        v.push(digit_to_char(n % 10));
        v
    }
}

/// Renders `n` in decimal.
pub fn dec_string(n: usize) -> (r: String)
    ensures
        r@ == dec_digits(n as int),
{
    let v = dec_chars(n);
    chars_to_string(&v)
}

/// A decimal digit.
pub open spec fn is_dec_digit(c: char) -> bool {
    0x30 <= c as u32 <= 0x39
}

/// The numeric value of a decimal digit character.
pub open spec fn digit_value(c: char) -> int {
    c as u32 - 0x30
}

/// The value of a string of decimal digits.
pub open spec fn dec_value(s: Seq<char>) -> int
    decreases s.len(),
{
    if s.len() == 0 {
        0
    } else {
        dec_value(s.drop_last()) * 10 + digit_value(s[s.len() - 1])
    }
}

/// A string of digits has a non-negative value.
proof fn lemma_dec_value_nonneg(s: Seq<char>)
    requires
        forall|j: int| 0 <= j < s.len() ==> is_dec_digit(#[trigger] s[j]),
    ensures
        dec_value(s) >= 0,
    decreases s.len(),
{
    if s.len() > 0 {
        assert(forall|j: int| 0 <= j < s.drop_last().len() ==> s.drop_last()[j] == s[j]);
        lemma_dec_value_nonneg(s.drop_last());
    }
}

/// Appending digits never lowers the value of a digit string.
proof fn lemma_dec_value_take_le(s: Seq<char>, i: int)
    requires
        0 <= i <= s.len(),
        forall|j: int| 0 <= j < s.len() ==> is_dec_digit(#[trigger] s[j]),
    ensures
        dec_value(s.take(i)) <= dec_value(s),
    decreases s.len() - i,
{
    if i < s.len() {
        lemma_dec_value_take_le(s, i + 1);
        assert(s.take(i + 1).drop_last() =~= s.take(i));
        assert(dec_value(s.take(i + 1)) == dec_value(s.take(i)) * 10 + digit_value(s[i]));
        assert(forall|j: int| 0 <= j < s.take(i).len() ==> s.take(i)[j] == s[j]);
        lemma_dec_value_nonneg(s.take(i));
        assert(dec_value(s.take(i)) * 10 + digit_value(s[i]) >= dec_value(s.take(i)));
    } else {
        assert(s.take(i) =~= s);
    }
}

/// Parses a non-empty all-digit string as a number; `None` when the string
/// is empty, holds a non-digit, or its value does not fit in `usize`.
pub fn parse_usize(s: &str) -> (r: Option<usize>)
    ensures
        match r {
            Some(v) => s@.len() > 0 && (forall|j: int|
                0 <= j < s@.len() ==> is_dec_digit(#[trigger] s@[j])) && v as int == dec_value(s@),
            None => s@.len() == 0 || (exists|j: int|
                0 <= j < s@.len() && !is_dec_digit(#[trigger] s@[j])) || dec_value(s@)
                > usize::MAX as int,
        },
{
    let n = s.unicode_len();
    if n == 0 {
        return None;
    }
    let mut acc: usize = 0;
    let mut i: usize = 0;
    while i < n
        invariant
            i <= n,
            n == s@.len(),
            forall|j: int| 0 <= j < i ==> is_dec_digit(#[trigger] s@[j]),
            acc as int == dec_value(s@.take(i as int)),
        decreases n - i,
    {
        let c = s.get_char(i);
        let u = c as u32;
        if u < 0x30 || u > 0x39 {
            return None;
        }
        let d = (u - 0x30) as usize;
        if acc > (usize::MAX - d) / 10 {
            proof {
                assert(s@.take(i as int + 1).drop_last() =~= s@.take(i as int));
                assert(dec_value(s@.take(i as int + 1)) == acc as int * 10 + d as int);
                assert(acc as int * 10 + d as int > usize::MAX as int);
                if forall|j: int| 0 <= j < s@.len() ==> is_dec_digit(#[trigger] s@[j]) {
                    lemma_dec_value_take_le(s@, i as int + 1);
                }
            }
            return None;
        }
        proof {
            assert(acc as int * 10 + d as int <= usize::MAX as int);
            assert(s@.take(i as int + 1).drop_last() =~= s@.take(i as int));
        }
        acc = acc * 10 + d;
        i += 1;
    }
    proof {
        assert(s@.take(n as int) =~= s@);
    }
    Some(acc)
}

/// Spaces prepended to right-align a string in the given width; a string
/// already that wide is unchanged.
pub open spec fn pad_left(s: Seq<char>, width: int) -> Seq<char> {
    if s.len() >= width {
        s
    } else {
        Seq::new((width - s.len()) as nat, |i: int| ' ') + s
    }
}

/// Right-aligns the string in the given width with spaces.
pub fn pad_left_spaces(s: String, width: usize) -> (r: String)
    ensures
        r@ == pad_left(s@, width as int),
{
    let n = s.as_str().unicode_len();
    if n >= width {
        proof {
            assert(pad_left(s@, width as int) == s@);
        }
        return s;
    }
    let mut out = String::new();
    let mut i: usize = 0;
    while i < width - n
        invariant
            i <= width - n,
            n == s@.len(),
            n < width,
            out@ =~= Seq::new(i as nat, |k: int| ' '),
        decreases width - n - i,
    {
        out.append(" ");
        proof {
            reveal_strlit(" ");
        }
        i += 1;
    }
    out.append(s.as_str());
    proof {
        assert(out@ =~= pad_left(s@, width as int));
    }
    out
}

/// Appending one more word to a joined prefix inserts one separator:
/// join(first i+1 words) == join(first i words) + sep + word i.
proof fn lemma_join_take_step(words: Seq<Seq<char>>, sep: Seq<char>, i: int)
    requires
        1 <= i < words.len(),
    ensures
        join_with(words.take(i + 1), sep) == join_with(words.take(i), sep) + sep + words[i],
    decreases i,
{
    if i == 1 {
        assert(words.take(2) =~= seq![words[0], words[1]]);
        assert(words.take(2).skip(1) =~= seq![words[1]]);
        assert(words.take(1) =~= seq![words[0]]);
        assert(join_with(seq![words[1]], sep) == words[1]);
        assert(join_with(seq![words[0], words[1]], sep) == seq![words[0], words[1]][0] + sep
            + join_with(seq![words[0], words[1]].skip(1), sep));
        assert(seq![words[0], words[1]].skip(1) =~= seq![words[1]]);
        assert(seq![words[0], words[1]][0] == words[0]);
        assert(join_with(words.take(2), sep) =~= words[0] + sep + words[1]);
    } else {
        lemma_join_take_step(words.skip(1), sep, i - 1);
        assert(words.take(i + 1).skip(1) =~= words.skip(1).take(i));
        assert(words.take(i).skip(1) =~= words.skip(1).take(i - 1));
        assert(words.take(i + 1)[0] == words[0]);
        assert(words.take(i)[0] == words[0]);
        assert(join_with(words.take(i + 1), sep) == words[0] + sep + join_with(
            words.skip(1).take(i),
            sep,
        ));
        assert(join_with(words.take(i), sep) == words[0] + sep + join_with(
            words.skip(1).take(i - 1),
            sep,
        ));
        assert(words.skip(1)[i - 1] == words[i]);
        assert((words[0] + sep + (join_with(words.skip(1).take(i - 1), sep) + sep + words[i]))
            =~= (words[0] + sep + join_with(words.skip(1).take(i - 1), sep)) + sep + words[i]);
    }
}

} // verus!
