//! Parsing of the color argument.
//!
//! The color comes in as one token holding exactly three comma-separated
//! decimal integers, each in `[0, 255]`. A wrong field count and a bad
//! value in each of the three channels are reported with distinct
//! messages, so argument validation can tell the user what was wrong.

use vstd::prelude::*;

verus! {

/// Whether `c` is a decimal digit.
pub open spec fn is_digit(c: char) -> bool {
    48 <= c as u32 && c as u32 <= 57
}

/// Numeric value of the decimal digit `c`.
pub open spec fn digit_value(c: char) -> int {
    c as u32 - 48
}

/// Whether every character of `q` is a decimal digit.
pub open spec fn all_digits(q: Seq<char>) -> bool {
    forall|i: int| 0 <= i < q.len() ==> is_digit(q[i])
}

/// Numeric value of a sequence of decimal digits, most significant first.
pub open spec fn digits_value(q: Seq<char>) -> int
    decreases q.len(),
{
    if q.len() == 0 {
        0
    } else {
        digits_value(q.drop_last()) * 10 + digit_value(q.last())
    }
}

/// The digit characters of one channel field: an optional leading `+`
/// sign is stripped, as the standard integer parser strips it.
pub open spec fn channel_digits(p: Seq<char>) -> Seq<char> {
    if p.len() > 0 && p[0] == '+' {
        p.skip(1)
    } else {
        p
    }
}

/// How one channel field parses: after the optional sign there must be at
/// least one character, all characters must be decimal digits, and the
/// value must fit in eight bits.
pub open spec fn channel_value(p: Seq<char>) -> Option<u8> {
    let q = channel_digits(p);
    if q.len() > 0 && all_digits(q) && digits_value(q) <= 255 {
        Some(digits_value(q) as u8)
    } else {
        None
    }
}

/// The comma-separated fields of `s`, in order: the spec-level
/// counterpart of splitting on `,`, under which an empty string has one
/// (empty) field and every comma opens a further field.
pub open spec fn split_fields(s: Seq<char>) -> Seq<Seq<char>>
    decreases s.len(),
{
    if s.len() == 0 {
        seq![Seq::<char>::empty()]
    } else if s[0] == ',' {
        seq![Seq::<char>::empty()] + split_fields(s.skip(1))
    } else {
        seq![seq![s[0]] + split_fields(s.skip(1))[0]] + split_fields(s.skip(1)).skip(1)
    }
}

/// The parse of a whole color token: defined exactly when the token has
/// three comma-separated fields and each field is a decimal integer in
/// `[0, 255]`.
pub open spec fn rgb_of(s: Seq<char>) -> Option<(u8, u8, u8)> {
    let fields = split_fields(s);
    if fields.len() == 3 && channel_value(fields[0]) is Some && channel_value(fields[1]) is Some
        && channel_value(fields[2]) is Some {
        Some(
            (
                channel_value(fields[0]).unwrap(),
                channel_value(fields[1]).unwrap(),
                channel_value(fields[2]).unwrap(),
            ),
        )
    } else {
        None
    }
}

/// The views of a list of built-up fields.
spec fn field_views(parts: Seq<Vec<char>>) -> Seq<Seq<char>> {
    parts.map_values(|part: Vec<char>| part@)
}

/// Splitting always yields at least one field.
pub proof fn lemma_split_fields_len(s: Seq<char>)
    ensures
        split_fields(s).len() >= 1,
    decreases s.len(),
{
    if s.len() == 0 {
    } else if s[0] == ',' {
    } else {
        lemma_split_fields_len(s.skip(1));
    }
}

/// The value of a sequence of digits is never negative.
proof fn lemma_digits_value_nonneg(q: Seq<char>)
    requires
        all_digits(q),
    ensures
        digits_value(q) >= 0,
    decreases q.len(),
{
    if q.len() > 0 {
        assert forall|i: int| 0 <= i < q.drop_last().len() implies is_digit(
            q.drop_last()[i],
        ) by {
            assert(q.drop_last()[i] == q[i]);
        }
        lemma_digits_value_nonneg(q.drop_last());
    }
}

/// A prefix of a digit sequence never has a larger value than the whole:
/// appending digits can only grow the value.
proof fn lemma_digits_value_prefix_le(q: Seq<char>, k: int)
    requires
        0 <= k <= q.len(),
        all_digits(q),
    ensures
        digits_value(q.subrange(0, k)) <= digits_value(q),
    decreases q.len() - k,
{
    if k == q.len() {
        assert(q.subrange(0, k) =~= q);
    } else {
        let a = q.subrange(0, k);
        let b = q.subrange(0, k + 1);
        assert(b.drop_last() =~= a);
        assert(b.last() == q[k]);
        assert forall|i: int| 0 <= i < a.len() implies is_digit(a[i]) by {
            assert(a[i] == q[i]);
        }
        lemma_digits_value_nonneg(a);
        assert(digits_value(b) == digits_value(a) * 10 + digit_value(q[k]));
        lemma_digits_value_prefix_le(q, k + 1);
    }
}

/// Parse one channel field against `channel_value`.
fn parse_channel(p: &Vec<char>) -> (v: Option<u8>)
    ensures
        v == channel_value(p@),
{
    let ghost q: Seq<char> = channel_digits(p@);
    let mut start: usize = 0;
    if p.len() > 0 && p[0] == '+' {
        start = 1;
    }
    proof {
        assert(q =~= p@.skip(start as int));
    }
    if p.len() == start {
        return None;
    }
    let mut val: u32 = 0;
    let mut i: usize = start;
    while i < p.len()
        invariant
            start <= i <= p@.len(),
            q == channel_digits(p@),
            q == p@.skip(start as int),
            all_digits(q.subrange(0, i - start)),
            val == digits_value(q.subrange(0, i - start)),
            val <= 255,
        decreases p@.len() - i,
    {
        let c: char = p[i];
        proof {
            assert(q[i - start] == p@[i as int]);
        }
        let u: u32 = c as u32;
        if u < 48 || u > 57 {
            proof {
                assert(!is_digit(q[i - start]));
            }
            return None;
        }
        let d: u32 = u - 48;
        let ghost prev = q.subrange(0, i - start);
        let ghost ext = q.subrange(0, i + 1 - start);
        proof {
            assert(ext.drop_last() =~= prev);
            assert(ext.last() == q[i - start]);
            assert(digits_value(ext) == digits_value(prev) * 10 + digit_value(q[i - start]));
            assert forall|j: int| 0 <= j < ext.len() implies is_digit(ext[j]) by {
                assert(ext[j] == q[j]);
            }
        }
        val = val * 10 + d;
        if val > 255 {
            proof {
                if all_digits(q) {
                    lemma_digits_value_prefix_le(q, i + 1 - start);
                }
            }
            return None;
        }
        i = i + 1;
    }
    proof {
        assert(q.subrange(0, p@.len() - start) =~= q);
    }
    Some(val as u8)
}

/// Parse a color token of the form `R,G,B` into its three channel
/// values, reporting a wrong field count and a malformed red, green or
/// blue field each with its own message.
pub fn parse_rgb(s: &str) -> (result: Result<(u8, u8, u8), String>)
    ensures
        (match result {
            Ok(c) => rgb_of(s@) == Some(c),
            Err(_) => rgb_of(s@) is None,
        }),
        split_fields(s@).len() != 3 ==> (result matches Err(m) && m@ == "Expected format 'R,G,B'"@),
        (split_fields(s@).len() == 3 && channel_value(split_fields(s@)[0]) is None) ==> (result
            matches Err(m) && m@ == "Invalid red value"@),
        (split_fields(s@).len() == 3 && channel_value(split_fields(s@)[0]) is Some
            && channel_value(split_fields(s@)[1]) is None) ==> (result matches Err(m) && m@
            == "Invalid green value"@),
        (split_fields(s@).len() == 3 && channel_value(split_fields(s@)[0]) is Some
            && channel_value(split_fields(s@)[1]) is Some && channel_value(split_fields(s@)[2])
            is None) ==> (result matches Err(m) && m@ == "Invalid blue value"@),
{
    let len: usize = s.unicode_len();
    let mut acc: Vec<Vec<char>> = Vec::new();
    let mut cur: Vec<char> = Vec::new();
    let mut i: usize = 0;
    proof {
        lemma_split_fields_len(s@);
        assert(s@.skip(0) =~= s@);
        assert(split_fields(s@) =~~= field_views(acc@) + seq![cur@ + split_fields(s@.skip(0))[0]]
            + split_fields(s@.skip(0)).skip(1));
    }
    while i < len
        invariant
            i <= len,
            len == s@.len(),
            split_fields(s@) =~~= field_views(acc@) + seq![cur@ + split_fields(
                s@.skip(i as int),
            )[0]] + split_fields(s@.skip(i as int)).skip(1),
        decreases len - i,
    {
        let ghost tail = split_fields(s@.skip(i as int));
        let ghost tail1 = split_fields(s@.skip(i as int + 1));
        let c: char = s.get_char(i);
        proof {
            lemma_split_fields_len(s@.skip(i as int + 1));
            assert(s@.skip(i as int)[0] == s@[i as int]);
            assert(s@.skip(i as int).skip(1) =~= s@.skip(i as int + 1));
        }
        if c == ',' {
            let ghost old_acc = acc@;
            let ghost old_cur = cur@;
            proof {
                assert(tail == seq![Seq::<char>::empty()] + tail1);
                assert(tail[0] =~= Seq::<char>::empty());
                assert(tail.skip(1) =~= tail1);
                assert(old_cur + tail[0] =~= old_cur);
                assert(seq![tail1[0]] + tail1.skip(1) =~= tail1);
            }
            acc.push(cur);
            cur = Vec::new();
            proof {
                assert(field_views(acc@) =~~= field_views(old_acc).push(old_cur));
                assert(split_fields(s@) =~~= field_views(acc@) + seq![cur@ + tail1[0]]
                    + tail1.skip(1));
            }
        } else {
            let ghost old_cur = cur@;
            cur.push(c);
            proof {
                assert(tail == seq![seq![s@[i as int]] + tail1[0]] + tail1.skip(1));
                assert(tail[0] == seq![c] + tail1[0]);
                assert(tail.skip(1) =~= tail1.skip(1));
                assert(cur@ =~= old_cur + seq![c]);
                assert(old_cur + tail[0] =~= cur@ + tail1[0]);
                assert(split_fields(s@) =~~= field_views(acc@) + seq![cur@ + tail1[0]]
                    + tail1.skip(1));
            }
        }
        i = i + 1;
    }
    let ghost old_acc = acc@;
    let ghost old_cur = cur@;
    proof {
        assert(s@.skip(len as int) =~= Seq::<char>::empty());
        assert(split_fields(s@) =~~= field_views(old_acc).push(old_cur));
    }
    acc.push(cur);
    proof {
        assert(field_views(acc@) =~~= field_views(old_acc).push(old_cur));
        assert(field_views(acc@) =~~= split_fields(s@));
        assert(split_fields(s@).len() == acc@.len());
    }
    if acc.len() != 3 {
        return Err("Expected format 'R,G,B'".to_owned());
    }
    proof {
        assert(split_fields(s@)[0] == acc@[0]@);
        assert(split_fields(s@)[1] == acc@[1]@);
        assert(split_fields(s@)[2] == acc@[2]@);
    }
    let c0 = parse_channel(&acc[0]);
    let c1 = parse_channel(&acc[1]);
    let c2 = parse_channel(&acc[2]);
    let r = match c0 {
        Some(v) => v,
        None => {
            return Err("Invalid red value".to_owned());
        },
    };
    let g = match c1 {
        Some(v) => v,
        None => {
            return Err("Invalid green value".to_owned());
        },
    };
    let b = match c2 {
        Some(v) => v,
        None => {
            return Err("Invalid blue value".to_owned());
        },
    };
    Ok((r, g, b))
}

} // verus!
