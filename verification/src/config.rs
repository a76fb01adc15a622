//! The runtime configuration and its file format.
//!
//! The configuration file holds one assignment per line; the one setting
//! the pipeline reads is `time_interval`. A line assigns it when, after
//! optional blanks, it spells the key, an equals sign and an unsigned
//! decimal number, and nothing else. `load_config` reads the first such
//! line of the text; reading the file itself is the caller's business.

use vstd::prelude::*;

verus! {

/// A configuration for the periodic pipeline runs.
#[derive(Debug)]
pub struct ScifferConfig {
    pub time_interval: u64,
}

/// A blank character inside a line.
pub open spec fn is_space(c: char) -> bool {
    c == ' ' || c == '\t' || c == '\r'
}

/// A decimal digit.
pub open spec fn is_digit(c: char) -> bool {
    ('0' as u32) <= (c as u32) && (c as u32) <= ('9' as u32)
}

/// The numeric value of one digit.
pub open spec fn digit_val(c: char) -> nat {
    ((c as u32) - ('0' as u32)) as nat
}

/// The sequence with its leading blanks removed.
pub open spec fn drop_spaces(s: Seq<char>) -> Seq<char>
    decreases s.len(),
{
    if s.len() > 0 && is_space(s[0]) {
        drop_spaces(s.drop_first())
    } else {
        s
    }
}

/// How many digits the sequence begins with.
pub open spec fn digit_prefix_len(s: Seq<char>) -> nat
    decreases s.len(),
{
    if s.len() > 0 && is_digit(s[0]) {
        1 + digit_prefix_len(s.drop_first())
    } else {
        0
    }
}

/// The value of a digit sequence read as a decimal number.
pub open spec fn digits_val(s: Seq<char>) -> nat
    decreases s.len(),
{
    if s.len() == 0 {
        0
    } else {
        digits_val(s.drop_last()) * 10 + digit_val(s.last())
    }
}

/// The key the pipeline reads.
pub open spec fn key_name() -> Seq<char> {
    "time_interval"@
}

/// What one line assigns to the key: after optional blanks the key, an
/// equals sign and a decimal number that fits a `u64`, and nothing else.
pub open spec fn line_interval(line: Seq<char>) -> Option<nat> {
    let s1 = drop_spaces(line);
    if s1.len() >= key_name().len() && s1.take(key_name().len() as int) == key_name() {
        let s2 = drop_spaces(s1.skip(key_name().len() as int));
        if s2.len() > 0 && s2[0] == '=' {
            let s3 = drop_spaces(s2.drop_first());
            let n = digit_prefix_len(s3) as int;
            if n > 0 && drop_spaces(s3.skip(n)).len() == 0 && digits_val(s3.take(n)) <= u64::MAX {
                Some(digits_val(s3.take(n)))
            } else {
                None
            }
        } else {
            None
        }
    } else {
        None
    }
}

/// Where the first line break stands; the whole length when none does.
pub open spec fn nl_index(s: Seq<char>) -> nat
    decreases s.len(),
{
    if s.len() == 0 {
        0
    } else if s[0] == '\n' {
        0
    } else {
        1 + nl_index(s.drop_first())
    }
}

/// The text split at its line breaks.
pub open spec fn lines_of(text: Seq<char>) -> Seq<Seq<char>>
    decreases text.len(),
{
    let i = nl_index(text) as int;
    if i >= text.len() {
        seq![text]
    } else {
        seq![text.take(i)] + lines_of(text.skip(i + 1))
    }
}

/// What the first assigning line of the lines assigns.
pub open spec fn spec_config_lines(ls: Seq<Seq<char>>) -> Option<nat>
    decreases ls.len(),
{
    if ls.len() == 0 {
        None
    } else if line_interval(ls[0]) is Some {
        line_interval(ls[0])
    } else {
        spec_config_lines(ls.drop_first())
    }
}

/// What the configuration text assigns to the key.
pub open spec fn spec_load_config(text: Seq<char>) -> Option<nat> {
    spec_config_lines(lines_of(text))
}

proof fn lemma_drop_spaces_at(s: Seq<char>, m: int)
    requires
        0 <= m <= s.len(),
        forall|x: int| 0 <= x < m ==> is_space(#[trigger] s[x]),
        m == s.len() || !is_space(s[m]),
    ensures
        drop_spaces(s) == s.skip(m),
    decreases m,
{
    if m == 0 {
        assert(s.skip(0) =~= s);
    } else {
        let t = s.drop_first();
        assert(forall|x: int| 0 <= x < m - 1 ==> is_space(#[trigger] t[x]));
        lemma_drop_spaces_at(t, m - 1);
        assert(t.skip(m - 1) =~= s.skip(m));
    }
}

proof fn lemma_digit_prefix_at(s: Seq<char>, m: int)
    requires
        0 <= m <= s.len(),
        forall|x: int| 0 <= x < m ==> is_digit(#[trigger] s[x]),
        m == s.len() || !is_digit(s[m]),
    ensures
        digit_prefix_len(s) == m,
    decreases m,
{
    if m > 0 {
        let t = s.drop_first();
        assert(forall|x: int| 0 <= x < m - 1 ==> is_digit(#[trigger] t[x]));
        lemma_digit_prefix_at(t, m - 1);
    }
}

proof fn lemma_nl_index_at(s: Seq<char>, m: int)
    requires
        0 <= m <= s.len(),
        forall|x: int| 0 <= x < m ==> (#[trigger] s[x]) != '\n',
        m == s.len() || s[m] == '\n',
    ensures
        nl_index(s) == m,
    decreases m,
{
    if m > 0 {
        let t = s.drop_first();
        assert(forall|x: int| 0 <= x < m - 1 ==> (#[trigger] t[x]) != '\n');
        lemma_nl_index_at(t, m - 1);
    }
}

/// Decides whether a character is a blank.
fn char_is_space(c: char) -> (r: bool)
    ensures
        r == is_space(c),
{
    c == ' ' || c == '\t' || c == '\r'
}

/// Decides whether a character is a decimal digit.
fn char_is_digit(c: char) -> (r: bool)
    ensures
        r == is_digit(c),
{
    ('0' as u32) <= (c as u32) && (c as u32) <= ('9' as u32)
}

/// Reads what one line assigns to the key, if anything.
#[verifier::rlimit(60)]
fn parse_line(line: &str) -> (r: Option<u64>)
    ensures
        (r is Some) == (line_interval(line@) is Some),
        r matches Some(v) ==> line_interval(line@) == Some(v as nat),
{
    let n = line.unicode_len();
    proof {
        reveal_strlit("time_interval");
    }
    // leading blanks
    let mut i: usize = 0;
    while i < n && char_is_space(line.get_char(i))
        invariant
            i <= n,
            n == line@.len(),
            forall|x: int| 0 <= x < i ==> is_space(#[trigger] line@[x]),
        decreases n - i,
    {
        i = i + 1;
    }
    proof {
        lemma_drop_spaces_at(line@, i as int);
    }
    let ghost s1 = drop_spaces(line@);
    // the key itself
    if n - i < 13 {
        return None;
    }
    let key = "time_interval";
    let mut x: usize = 0;
    while x < 13
        invariant
            x <= 13,
            i + 13 <= n,
            n == line@.len(),
            s1 == line@.skip(i as int),
            s1 == drop_spaces(line@),
            key@ == key_name(),
            key@.len() == 13,
            forall|y: int| 0 <= y < x ==> line@[i + y] == #[trigger] key@[y],
        decreases 13 - x,
    {
        if line.get_char(i + x) != key.get_char(x) {
            proof {
                assert(s1.len() == n - i);
                assert(s1[x as int] == line@[i + x]);
                assert(s1.take(13)[x as int] != key_name()[x as int]);
            }
            return None;
        }
        x = x + 1;
    }
    proof {
        assert forall|y: int| 0 <= y < 13 implies s1.take(13)[y] == key_name()[y] by {
            assert(s1[y] == line@[i + y]);
        }
        assert(s1.take(13) =~= key_name());
    }
    let i1 = i + 13;
    // blanks before the equals sign
    let mut i2: usize = i1;
    while i2 < n && char_is_space(line.get_char(i2))
        invariant
            i1 <= i2 <= n,
            n == line@.len(),
            forall|x2: int| i1 <= x2 < i2 ==> is_space(#[trigger] line@[x2]),
        decreases n - i2,
    {
        i2 = i2 + 1;
    }
    let ghost s2 = drop_spaces(s1.skip(13));
    proof {
        assert(s1.skip(13) =~= line@.skip(i1 as int));
        let t = line@.skip(i1 as int);
        assert forall|x2: int| 0 <= x2 < i2 - i1 implies is_space(#[trigger] t[x2]) by {
            assert(t[x2] == line@[i1 + x2]);
        }
        lemma_drop_spaces_at(t, i2 - i1);
        assert(t.skip(i2 - i1) =~= line@.skip(i2 as int));
        assert(s2 == line@.skip(i2 as int));
    }
    // the equals sign
    if i2 >= n {
        return None;
    }
    if line.get_char(i2) != '=' {
        proof {
            assert(s2[0] == line@[i2 as int]);
        }
        return None;
    }
    proof {
        assert(s2[0] == line@[i2 as int]);
    }
    let i3 = i2 + 1;
    // blanks before the number
    let mut i4: usize = i3;
    while i4 < n && char_is_space(line.get_char(i4))
        invariant
            i3 <= i4 <= n,
            n == line@.len(),
            forall|x2: int| i3 <= x2 < i4 ==> is_space(#[trigger] line@[x2]),
        decreases n - i4,
    {
        i4 = i4 + 1;
    }
    let ghost s3 = drop_spaces(s2.drop_first());
    proof {
        assert(s2.drop_first() =~= line@.skip(i3 as int));
        let t = line@.skip(i3 as int);
        assert forall|x2: int| 0 <= x2 < i4 - i3 implies is_space(#[trigger] t[x2]) by {
            assert(t[x2] == line@[i3 + x2]);
        }
        lemma_drop_spaces_at(t, i4 - i3);
        assert(t.skip(i4 - i3) =~= line@.skip(i4 as int));
        assert(s3 == line@.skip(i4 as int));
    }
    // the number
    let mut j: usize = i4;
    let mut acc: u64 = 0;
    let mut over: bool = false;
    while j < n && char_is_digit(line.get_char(j))
        invariant
            i4 <= j <= n,
            n == line@.len(),
            s3 == line@.skip(i4 as int),
            forall|x2: int| i4 <= x2 < j ==> is_digit(#[trigger] line@[x2]),
            !over ==> acc == digits_val(s3.take(j - i4)),
            over ==> digits_val(s3.take(j - i4)) > u64::MAX,
        decreases n - j,
    {
        let c = line.get_char(j);
        let d = (c as u32) - ('0' as u32);
        proof {
            assert(s3.take(j - i4 + 1).drop_last() =~= s3.take(j - i4));
            assert(s3.take(j - i4 + 1).last() == line@[j as int]);
        }
        if !over {
            let next = match acc.checked_mul(10) {
                Some(a) => a.checked_add(d as u64),
                None => None,
            };
            match next {
                Some(a) => {
                    acc = a;
                },
                None => {
                    over = true;
                },
            }
        }
        j = j + 1;
    }
    proof {
        let t = line@.skip(i4 as int);
        assert forall|x2: int| 0 <= x2 < j - i4 implies is_digit(#[trigger] t[x2]) by {
            assert(t[x2] == line@[i4 + x2]);
        }
        lemma_digit_prefix_at(t, j - i4);
    }
    if j == i4 {
        return None;
    }
    // nothing but blanks may follow
    let mut i5: usize = j;
    while i5 < n && char_is_space(line.get_char(i5))
        invariant
            j <= i5 <= n,
            n == line@.len(),
            forall|x2: int| j <= x2 < i5 ==> is_space(#[trigger] line@[x2]),
        decreases n - i5,
    {
        i5 = i5 + 1;
    }
    proof {
        assert(s3.skip(j - i4) =~= line@.skip(j as int));
        let t = line@.skip(j as int);
        assert forall|x2: int| 0 <= x2 < i5 - j implies is_space(#[trigger] t[x2]) by {
            assert(t[x2] == line@[j + x2]);
        }
        lemma_drop_spaces_at(t, i5 - j);
        assert(t.skip(i5 - j) =~= line@.skip(i5 as int));
    }
    if i5 < n {
        return None;
    }
    if over {
        return None;
    }
    Some(acc)
}

/// Reads the configuration out of the file's text: the first line that
/// assigns the key decides, and a text without such a line has no
/// configuration.
pub fn load_config(text: &str) -> (r: Option<ScifferConfig>)
    ensures
        (r is Some) == (spec_load_config(text@) is Some),
        r matches Some(c) ==> spec_load_config(text@) == Some(c.time_interval as nat),
{
    let n = text.unicode_len();
    let mut start: usize = 0;
    proof {
        assert(text@.skip(0) =~= text@);
    }
    loop
        invariant
            start <= n,
            n == text@.len(),
            spec_load_config(text@) == spec_config_lines(lines_of(text@.skip(start as int))),
        decreases n - start,
    {
        let mut end: usize = start;
        while end < n && text.get_char(end) != '\n'
            invariant
                start <= end <= n,
                n == text@.len(),
                forall|x: int| start <= x < end ==> (#[trigger] text@[x]) != '\n',
            decreases n - end,
        {
            end = end + 1;
        }
        let line = text.substring_char(start, end);
        let ghost rest = text@.skip(start as int);
        proof {
            assert forall|x: int| 0 <= x < end - start implies (#[trigger] rest[x]) != '\n' by {
                assert(rest[x] == text@[start + x]);
            }
            if end < n {
                assert(rest[end - start] == text@[end as int]);
            }
            lemma_nl_index_at(rest, end - start);
            assert(rest.take(end - start) =~= line@);
        }
        let parsed = parse_line(line);
        match parsed {
            Some(v) => {
                proof {
                    if end >= n {
                        assert(rest =~= line@);
                        assert(lines_of(rest) == seq![rest]);
                        assert(lines_of(rest)[0] == rest);
                    } else {
                        assert(lines_of(rest) == seq![rest.take(end - start)] + lines_of(
                            rest.skip(end - start + 1),
                        ));
                        assert(lines_of(rest)[0] == line@);
                    }
                }
                return Some(ScifferConfig { time_interval: v });
            },
            None => {
                if end >= n {
                    proof {
                        assert(rest =~= line@);
                        assert(lines_of(rest) == seq![rest]);
                        assert(lines_of(rest)[0] == rest);
                        assert(lines_of(rest).len() == 1);
                        assert(lines_of(rest).drop_first().len() == 0);
                        assert(spec_config_lines(lines_of(rest).drop_first()) is None);
                    }
                    return None;
                }
                proof {
                    let ls = lines_of(rest);
                    assert(ls == seq![rest.take(end - start)] + lines_of(
                        rest.skip(end - start + 1),
                    ));
                    assert(ls[0] == line@);
                    assert(ls.drop_first() =~= lines_of(rest.skip(end - start + 1)));
                    assert(rest.skip(end - start + 1) =~= text@.skip(end + 1));
                }
                start = end + 1;
            },
        }
    }
}

} // verus!
