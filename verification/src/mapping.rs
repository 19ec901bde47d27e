use vstd::prelude::*;

verus! {

/// The first position from `from` on, and before `to`, at which `text`
/// holds `byte`; `to` where there is none.
pub open spec fn find_in(text: Seq<u8>, byte: u8, from: int, to: int) -> int
    decreases to - from,
{
    if from >= to {
        to
    } else if text[from] == byte {
        from
    } else {
        find_in(text, byte, from + 1, to)
    }
}

/// Holds of the bytes `0` to `9`.
pub open spec fn is_digit(byte: u8) -> bool {
    48 <= byte <= 57
}

/// The number that the bytes of `text` from `from` to before `to` write in
/// decimal digits; `None` where there is no byte or a byte is no digit.
pub open spec fn number(text: Seq<u8>, from: int, to: int) -> Option<nat>
    decreases to - from,
{
    if to <= from || !is_digit(text[to - 1]) {
        None
    } else if to - 1 == from {
        Some((text[to - 1] - 48) as nat)
    } else {
        match number(text, from, to - 1) {
            Some(front) => Some(10 * front + (text[to - 1] - 48) as nat),
            None => None,
        }
    }
}

/// The index that the bytes of `text` from `from` to before `to` name. The
/// file counts from one, an index from zero.
pub open spec fn index_at(text: Seq<u8>, from: int, to: int) -> Option<usize> {
    match number(text, from, to) {
        Some(n) => if 1 <= n <= usize::MAX {
            Some((n - 1) as usize)
        } else {
            None
        },
        None => None,
    }
}

/// The pairs that the items of a line give with `left`: the items stand
/// from `at` to before `to`, one index each, with a comma and a blank
/// between them.
pub open spec fn items(text: Seq<u8>, left: usize, at: int, to: int) -> Option<Seq<(usize, usize)>>
    decreases to - at,
{
    let comma = find_in(text, 44, at, to);
    match index_at(text, at, comma) {
        None => None,
        Some(right) => if comma >= to {
            Some(seq![(left, right)])
        } else if at <= comma && comma + 1 < to && text[comma + 1] == 32 {
            match items(text, left, comma + 2, to) {
                Some(rest) => Some(seq![(left, right)] + rest),
                None => None,
            }
        } else {
            None
        },
    }
}

/// The pairs that one line gives, which stands from `from` to before `to`:
/// an index, a colon and a blank, and then the items.
pub open spec fn line(text: Seq<u8>, from: int, to: int) -> Option<Seq<(usize, usize)>> {
    let colon = find_in(text, 58, from, to);
    if colon + 1 < to && text[colon + 1] == 32 {
        match index_at(text, from, colon) {
            Some(left) => items(text, left, colon + 2, to),
            None => None,
        }
    } else {
        None
    }
}

/// Where a line ends that stands from `from` to before the line feed at
/// `end`: before a carriage return, if one precedes the line feed.
pub open spec fn line_end(text: Seq<u8>, from: int, end: int) -> int {
    if end > from && text[end - 1] == 13 {
        end - 1
    } else {
        end
    }
}

/// The pairs that the lines from `from` on give, line after line.
pub open spec fn lines(text: Seq<u8>, from: int) -> Option<Seq<(usize, usize)>>
    decreases text.len() - from,
{
    if from >= text.len() {
        Some(Seq::empty())
    } else {
        let end = find_in(text, 10, from, text.len() as int);
        if end < from || end > text.len() {
            None
        } else {
            match line(text, from, line_end(text, from, end)) {
                None => None,
                Some(head) => if end >= text.len() {
                    Some(head)
                } else {
                    match lines(text, end + 1) {
                        Some(tail) => Some(head + tail),
                        None => None,
                    }
                },
            }
        }
    }
}

/// The pairs that a mapping file gives.
///
/// The first line is a heading and is passed over. Every other line reads
/// `7: 3, 12, 40`: an index, a colon, and the indices joined to it. Indices
/// count from one in the file and from zero in the pairs. A file with a
/// line of another form gives `None`.
pub open spec fn mapping(text: Seq<u8>) -> Option<Seq<(usize, usize)>> {
    lines(text, find_in(text, 10, 0, text.len() as int) + 1)
}

/// A longer run of digits writes no smaller number than its front part.
pub proof fn lemma_number_grows(text: Seq<u8>, from: int, cut: int, to: int)
    requires
        from < cut <= to,
        number(text, from, to) is Some,
    ensures
        number(text, from, cut) is Some,
        number(text, from, cut)->0 <= number(text, from, to)->0,
    decreases to - cut,
{
    if cut < to {
        lemma_number_grows(text, from, cut, to - 1);
    }
}

/// The first position from `from` on, and before `to`, at which `text`
/// holds `byte`; `to` where there is none.
pub fn find_byte(text: &[u8], byte: u8, from: usize, to: usize) -> (at: usize)
    requires
        from <= to <= text@.len(),
    ensures
        at == find_in(text@, byte, from as int, to as int),
        from <= at <= to,
{
    let mut at = from;
    while at < to && text[at] != byte
        invariant
            from <= at <= to <= text@.len(),
            find_in(text@, byte, from as int, to as int) == find_in(
                text@,
                byte,
                at as int,
                to as int,
            ),
        decreases to - at,
    {
        at += 1;
    }
    at
}

/// Reads the index that stands from `from` to before `to`.
pub fn read_index(text: &[u8], from: usize, to: usize) -> (index: Option<usize>)
    requires
        from <= to <= text@.len(),
    ensures
        index == index_at(text@, from as int, to as int),
{
    if from >= to {
        return None;
    }
    let mut value: usize = 0;
    let mut at = from;
    while at < to
        invariant
            from <= at <= to <= text@.len(),
            at == from ==> value == 0,
            at > from ==> number(text@, from as int, at as int) == Some(value as nat),
        decreases to - at,
    {
        let byte = text[at];
        if byte < 48 || byte > 57 {
            proof {
                if number(text@, from as int, to as int) is Some {
                    lemma_number_grows(text@, from as int, at as int + 1, to as int);
                }
            }
            return None;
        }
        let digit = (byte - 48) as usize;
        if value > (usize::MAX - digit) / 10 {
            proof {
                if number(text@, from as int, to as int) is Some {
                    lemma_number_grows(text@, from as int, at as int + 1, to as int);
                }
            }
            return None;
        }
        value = 10 * value + digit;
        at += 1;
    }
    if value == 0 {
        None
    } else {
        Some(value - 1)
    }
}

/// Reads the items of a line, which stand from `at` to before `to`, and
/// appends the pairs that they give with `left` to `pairs`. Says whether
/// the items were well formed.
fn read_items(text: &[u8], left: usize, start: usize, to: usize, pairs: &mut Vec<(usize, usize)>) -> (read:
    bool)
    requires
        start <= to <= text@.len(),
    ensures
        read == items(text@, left, start as int, to as int) is Some,
        read ==> final(pairs)@ == old(pairs)@ + items(text@, left, start as int, to as int)->0,
{
    let mut at = start;
    loop
        invariant
            start <= at <= to <= text@.len(),
            match items(text@, left, at as int, to as int) {
                Some(rest) => items(text@, left, start as int, to as int) == Some(
                    pairs@.subrange(old(pairs)@.len() as int, pairs@.len() as int) + rest,
                ),
                None => items(text@, left, start as int, to as int) is None,
            },
            old(pairs)@.len() <= pairs@.len(),
            pairs@.subrange(0, old(pairs)@.len() as int) == old(pairs)@,
        decreases to - at,
    {
        let comma = find_byte(text, 44, at, to);
        let right = match read_index(text, at, comma) {
            Some(right) => right,
            None => {
                return false;
            },
        };
        let ghost before = pairs@;
        pairs.push((left, right));
        proof {
            let first = old(pairs)@.len() as int;
            assert(pairs@.subrange(first, pairs@.len() as int) =~= before.subrange(
                first,
                before.len() as int,
            ).push((left, right)));
            assert(pairs@.subrange(0, first) =~= before.subrange(0, first));
        }
        if comma >= to {
            proof {
                let first = old(pairs)@.len() as int;
                assert(before.subrange(first, before.len() as int) + seq![(left, right)]
                    =~= pairs@.subrange(first, pairs@.len() as int));
                assert(pairs@ =~= old(pairs)@ + pairs@.subrange(first, pairs@.len() as int));
            }
            return true;
        }
        if !(to - comma > 1 && text[comma + 1] == 32) {
            return false;
        }
        proof {
            let first = old(pairs)@.len() as int;
            match items(text@, left, comma as int + 2, to as int) {
                Some(rest) => {
                    assert(before.subrange(first, before.len() as int) + (seq![(left, right)]
                        + rest) =~= pairs@.subrange(first, pairs@.len() as int) + rest);
                },
                None => {},
            }
        }
        at = comma + 2;
    }
}

/// Reads the line that stands from `from` to before `to` and appends the
/// pairs that it gives to `pairs`. Says whether the line was well formed.
fn read_line(text: &[u8], from: usize, to: usize, pairs: &mut Vec<(usize, usize)>) -> (read: bool)
    requires
        from <= to <= text@.len(),
    ensures
        read == line(text@, from as int, to as int) is Some,
        read ==> final(pairs)@ == old(pairs)@ + line(text@, from as int, to as int)->0,
{
    let colon = find_byte(text, 58, from, to);
    if !(to - colon > 1 && text[colon + 1] == 32) {
        return false;
    }
    match read_index(text, from, colon) {
        Some(left) => read_items(text, left, colon + 2, to, pairs),
        None => false,
    }
}

/// Reads a mapping file: the pairs of indices that its lines join, or
/// `None` where a line is not of the form that `mapping` describes.
pub fn parse_mapping(text: &[u8]) -> (pairs: Option<Vec<(usize, usize)>>)
    ensures
        pairs is Some == mapping(text@) is Some,
        pairs matches Some(read) ==> mapping(text@) == Some(read@),
{
    let length = text.len();
    let heading = find_byte(text, 10, 0, length);
    let mut pairs: Vec<(usize, usize)> = Vec::new();
    if heading >= length {
        return Some(pairs);
    }
    let mut from = heading + 1;
    while from < length
        invariant
            length == text@.len(),
            from <= length,
            match lines(text@, from as int) {
                Some(rest) => mapping(text@) == Some(pairs@ + rest),
                None => mapping(text@) is None,
            },
        decreases length - from,
    {
        let end = find_byte(text, 10, from, length);
        let stop = if end > from && text[end - 1] == 13 {
            end - 1
        } else {
            end
        };
        let ghost before = pairs@;
        if !read_line(text, from, stop, &mut pairs) {
            return None;
        }
        proof {
            let head = line(text@, from as int, stop as int)->0;
            if end < length {
                match lines(text@, end as int + 1) {
                    Some(tail) => {
                        assert(before + (head + tail) =~= pairs@ + tail);
                    },
                    None => {},
                }
            }
        }
        if end >= length {
            return Some(pairs);
        }
        from = end + 1;
    }
    proof {
        assert(pairs@ + Seq::<(usize, usize)>::empty() =~= pairs@);
    }
    Some(pairs)
}

} // verus!
