use vstd::prelude::*;
use vstd::std_specs::iter::IteratorSpec;

verus! {

broadcast use vstd::string::group_string_axioms;

/// The characters that `char::is_whitespace` accepts: Unicode's `White_Space`.
pub open spec fn is_space(c: char) -> bool {
    let u = c as u32;
    (0x09 <= u && u <= 0x0d) || u == 0x20 || u == 0x85 || u == 0xa0 || u == 0x1680 || (0x2000
        <= u && u <= 0x200a) || u == 0x2028 || u == 0x2029 || u == 0x202f || u == 0x205f || u
        == 0x3000
}

/// A line is blank when nothing is left of it once whitespace is trimmed.
pub open spec fn blank(line: Seq<char>) -> bool {
    forall|i: int| 0 <= i < line.len() ==> is_space(#[trigger] line[i])
}

/// Whether `c` is whitespace in the sense of `char::is_whitespace`.
pub fn is_space_char(c: char) -> (r: bool)
    ensures
        r == is_space(c),
{
    let u = c as u32;
    (0x09 <= u && u <= 0x0d) || u == 0x20 || u == 0x85 || u == 0xa0 || u == 0x1680 || (0x2000
        <= u && u <= 0x200a) || u == 0x2028 || u == 0x2029 || u == 0x202f || u == 0x205f || u
        == 0x3000
}

/// Whether the line is empty once trimmed.
pub fn is_blank(line: &str) -> (r: bool)
    ensures
        r == blank(line@),
{
    let mut it = line.chars();
    let ghost n = line@.len();
    let ghost mut k: int = 0;
    loop
        invariant
            0 <= k <= n,
            n == line@.len(),
            it.obeys_prophetic_iter_laws(),
            it.remaining() == line@.subrange(k, n as int),
            forall|i: int| 0 <= i < k ==> is_space(#[trigger] line@[i]),
        decreases n - k,
    {
        let ghost before = it.remaining();
        match it.next() {
            None => {
                assert(before.len() == 0);
                return true;
            },
            Some(c) => {
                assert(before[0] == line@[k]);
                if !is_space_char(c) {
                    return false;
                }
                proof {
                    k = k + 1;
                }
            },
        }
    }
}


/// How output lines are numbered.
#[derive(Clone, Copy, Debug, PartialEq, Eq, Structural)]
pub enum Policy {
    /// Lines are written as they are.
    Plain,
    /// Every line gets the next number.
    All,
    /// Lines that are not blank get the next number; blank lines are written empty.
    NonBlank,
}

/// Width of the field in which a line number is right-aligned.
pub const NUMBER_WIDTH: usize = 6;

/// The decimal digit for `d < 10`.
pub open spec fn digit(d: nat) -> char {
    seq!['0', '1', '2', '3', '4', '5', '6', '7', '8', '9'][d as int]
}

/// The decimal notation of `n`, without leading zeros.
pub open spec fn decimal(n: nat) -> Seq<char>
    decreases n,
{
    if n < 10 {
        seq![digit(n)]
    } else {
        decimal(n / 10).push(digit(n % 10))
    }
}

/// `s` right-aligned in a field of `width` characters, padded with spaces.
pub open spec fn right_aligned(s: Seq<char>, width: nat) -> Seq<char> {
    if s.len() < width {
        Seq::new((width - s.len()) as nat, |i: int| ' ') + s
    } else {
        s
    }
}

/// The prefix of a numbered line: the number right-aligned in six columns, then a tab.
pub open spec fn number_prefix(n: nat) -> Seq<char> {
    right_aligned(decimal(n), NUMBER_WIDTH as nat).push('\t')
}

/// What is written for `line` when the counter stands at `counter`, terminator included.
pub open spec fn rendered(policy: Policy, counter: nat, line: Seq<char>) -> Seq<char> {
    match policy {
        Policy::Plain => line.push('\n'),
        Policy::All => number_prefix(counter) + line.push('\n'),
        Policy::NonBlank => if blank(line) {
            seq!['\n']
        } else {
            number_prefix(counter) + line.push('\n')
        },
    }
}

/// Whether `line` takes a number under `policy`.
pub open spec fn takes_number(policy: Policy, line: Seq<char>) -> bool {
    match policy {
        Policy::Plain => false,
        Policy::All => true,
        Policy::NonBlank => !blank(line),
    }
}

/// The counter after `line` has been written.
pub open spec fn advanced(policy: Policy, counter: nat, line: Seq<char>) -> nat {
    if takes_number(policy, line) {
        counter + 1
    } else {
        counter
    }
}

/// The counter after `lines` have been written, starting from `start`.
pub open spec fn counter_after(policy: Policy, start: nat, lines: Seq<Seq<char>>) -> nat
    decreases lines.len(),
{
    if lines.len() == 0 {
        start
    } else {
        advanced(policy, counter_after(policy, start, lines.drop_last()), lines.last())
    }
}

/// What is written for each of `lines`, in order, when numbering starts from `start`.
pub open spec fn numbered(policy: Policy, start: nat, lines: Seq<Seq<char>>) -> Seq<Seq<char>>
    decreases lines.len(),
{
    if lines.len() == 0 {
        Seq::empty()
    } else {
        numbered(policy, start, lines.drop_last()).push(
            rendered(policy, counter_after(policy, start, lines.drop_last()), lines.last()),
        )
    }
}

/// How many of `lines` are not blank.
pub open spec fn nonblank_count(lines: Seq<Seq<char>>) -> nat
    decreases lines.len(),
{
    if lines.len() == 0 {
        0
    } else {
        nonblank_count(lines.drop_last()) + if blank(lines.last()) {
            0nat
        } else {
            1nat
        }
    }
}

/// Each line is rendered with the counter that the lines before it left.
pub proof fn lemma_numbered_index(policy: Policy, start: nat, lines: Seq<Seq<char>>, i: int)
    requires
        0 <= i < lines.len(),
    ensures
        numbered(policy, start, lines).len() == lines.len(),
        numbered(policy, start, lines)[i] == rendered(
            policy,
            counter_after(policy, start, lines.take(i)),
            lines[i],
        ),
    decreases lines.len(),
{
    lemma_numbered_len(policy, start, lines);
    if i < lines.len() - 1 {
        lemma_numbered_index(policy, start, lines.drop_last(), i);
        assert(lines.drop_last().take(i) =~= lines.take(i));
    } else {
        assert(lines.drop_last() =~= lines.take(i));
    }
}

/// One output line for each input line.
pub proof fn lemma_numbered_len(policy: Policy, start: nat, lines: Seq<Seq<char>>)
    ensures
        numbered(policy, start, lines).len() == lines.len(),
    decreases lines.len(),
{
    if lines.len() > 0 {
        lemma_numbered_len(policy, start, lines.drop_last());
    }
}

/// The counter moves by one for each line that takes a number, and never more.
pub proof fn lemma_counter_bound(policy: Policy, start: nat, lines: Seq<Seq<char>>)
    ensures
        start <= counter_after(policy, start, lines) <= start + lines.len(),
    decreases lines.len(),
{
    if lines.len() > 0 {
        lemma_counter_bound(policy, start, lines.drop_last());
    }
}

/// Numbering continues across a boundary: the lines of `b` written after those of `a`
/// are numbered from where `a` left the counter, never from the start again.
pub proof fn lemma_numbering_continues(
    policy: Policy,
    start: nat,
    a: Seq<Seq<char>>,
    b: Seq<Seq<char>>,
)
    ensures
        numbered(policy, start, a + b) == numbered(policy, start, a) + numbered(
            policy,
            counter_after(policy, start, a),
            b,
        ),
        counter_after(policy, start, a + b) == counter_after(
            policy,
            counter_after(policy, start, a),
            b,
        ),
    decreases b.len(),
{
    if b.len() == 0 {
        assert(a + b =~= a);
        assert(numbered(policy, start, a) + Seq::empty() =~= numbered(policy, start, a));
    } else {
        lemma_numbering_continues(policy, start, a, b.drop_last());
        assert((a + b).drop_last() =~= a + b.drop_last());
        assert((a + b).last() == b.last());
        let mid = counter_after(policy, start, a);
        assert(numbered(policy, start, a + b) =~= numbered(policy, start, a) + numbered(
            policy,
            mid,
            b,
        ));
    }
}

/// With every line numbered, the line at position `i` carries the number `i + 1`.
pub proof fn lemma_all_numbers_every_line(lines: Seq<Seq<char>>, i: int)
    requires
        0 <= i < lines.len(),
    ensures
        numbered(Policy::All, 1, lines)[i] == number_prefix((i + 1) as nat) + lines[i].push(
            '\n',
        ),
        numbered(Policy::All, 1, lines).len() == lines.len(),
{
    lemma_numbered_index(Policy::All, 1, lines, i);
    lemma_all_counter(lines.take(i));
}

/// With every line numbered, the counter counts the lines.
pub proof fn lemma_all_counter(lines: Seq<Seq<char>>)
    ensures
        counter_after(Policy::All, 1, lines) == 1 + lines.len(),
    decreases lines.len(),
{
    if lines.len() > 0 {
        lemma_all_counter(lines.drop_last());
    }
}

/// With non-blank lines numbered, a blank line is written empty and a line that is not
/// blank carries one more than the number of non-blank lines before it.
pub proof fn lemma_nonblank_numbering(lines: Seq<Seq<char>>, i: int)
    requires
        0 <= i < lines.len(),
    ensures
        numbered(Policy::NonBlank, 1, lines).len() == lines.len(),
        blank(lines[i]) ==> numbered(Policy::NonBlank, 1, lines)[i] == seq!['\n'],
        !blank(lines[i]) ==> numbered(Policy::NonBlank, 1, lines)[i] == number_prefix(
            1 + nonblank_count(lines.take(i)),
        ) + lines[i].push('\n'),
{
    lemma_numbered_index(Policy::NonBlank, 1, lines, i);
    lemma_nonblank_counter(1, lines.take(i));
}

/// With non-blank lines numbered, the counter advances once per non-blank line and
/// stays where it is on a blank one.
pub proof fn lemma_nonblank_counter(start: nat, lines: Seq<Seq<char>>)
    ensures
        counter_after(Policy::NonBlank, start, lines) == start + nonblank_count(lines),
    decreases lines.len(),
{
    if lines.len() > 0 {
        lemma_nonblank_counter(start, lines.drop_last());
    }
}

/// Without numbering every line is written as it is, followed by a line terminator.
pub proof fn lemma_plain_is_verbatim(start: nat, lines: Seq<Seq<char>>)
    ensures
        numbered(Policy::Plain, start, lines) == lines.map_values(|l: Seq<char>| l.push('\n')),
    decreases lines.len(),
{
    if lines.len() > 0 {
        lemma_plain_is_verbatim(start, lines.drop_last());
    }
    assert(numbered(Policy::Plain, start, lines) =~= lines.map_values(
        |l: Seq<char>| l.push('\n'),
    ));
}

fn digit_str(d: u64) -> (r: &'static str)
    requires
        d < 10,
    ensures
        r@ == seq![digit(d as nat)],
{
    proof {
        reveal_strlit("0");
        reveal_strlit("1");
        reveal_strlit("2");
        reveal_strlit("3");
        reveal_strlit("4");
        reveal_strlit("5");
        reveal_strlit("6");
        reveal_strlit("7");
        reveal_strlit("8");
        reveal_strlit("9");
    }
    let r = match d {
        0 => "0",
        1 => "1",
        2 => "2",
        3 => "3",
        4 => "4",
        5 => "5",
        6 => "6",
        7 => "7",
        8 => "8",
        _ => "9",
    };
    assert(r@ =~= seq![digit(d as nat)]);
    r
}

fn append_decimal(s: &mut String, n: u64)
    ensures
        final(s)@ == old(s)@ + decimal(n as nat),
    decreases n,
{
    if n >= 10 {
        append_decimal(s, n / 10);
    }
    s.append(digit_str(n % 10));
    assert(final(s)@ =~= old(s)@ + decimal(n as nat));
}

/// The decimal notation of `n`, right-aligned in six columns and followed by a tab.
pub fn format_number(n: u64) -> (r: String)
    ensures
        r@ == number_prefix(n as nat),
{
    let mut digits = String::new();
    append_decimal(&mut digits, n);
    let len = digits.as_str().unicode_len();
    let mut r = String::new();
    let mut pad: usize = 0;
    while len + pad < NUMBER_WIDTH
        invariant
            len == decimal(n as nat).len(),
            digits@ == decimal(n as nat),
            pad <= NUMBER_WIDTH,
            len + pad <= NUMBER_WIDTH || pad == 0,
            r@ =~= Seq::new(pad as nat, |i: int| ' '),
        decreases NUMBER_WIDTH - pad,
    {
        proof {
            reveal_strlit(" ");
        }
        r.append(" ");
        pad = pad + 1;
        assert(r@ =~= Seq::new(pad as nat, |i: int| ' '));
    }
    r.append(digits.as_str());
    proof {
        reveal_strlit("\t");
    }
    r.append("\t");
    assert(r@ =~= number_prefix(n as nat));
    r
}

/// Renders one line under `policy` with the counter at `counter`, and gives the
/// counter that the next line starts from.
pub fn render_line(policy: Policy, counter: u64, line: &str) -> (r: (String, u64))
    requires
        counter < u64::MAX,
    ensures
        r.0@ == rendered(policy, counter as nat, line@),
        r.1 == advanced(policy, counter as nat, line@),
{
    proof {
        reveal_strlit("\n");
    }
    let numbered = match policy {
        Policy::Plain => false,
        Policy::All => true,
        Policy::NonBlank => !is_blank(line),
    };
    if numbered {
        let mut out = format_number(counter);
        out.append(line);
        out.append("\n");
        assert(out@ =~= rendered(policy, counter as nat, line@));
        (out, counter + 1)
    } else {
        let mut out = String::new();
        match policy {
            Policy::Plain => {
                out.append(line);
            },
            _ => {},
        }
        out.append("\n");
        assert(out@ =~= rendered(policy, counter as nat, line@));
        (out, counter)
    }
}

} // verus!
