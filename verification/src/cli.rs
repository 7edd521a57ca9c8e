//! The wallet's command line: a line read from the user is split into words, and
//! the words decide what the wallet does next.

use vstd::prelude::*;
use vstd::string::StrSliceExecFns;

verus! {

/// Whether a character is white space: the Unicode `White_Space` characters, which
/// `char::is_whitespace` (and so `str::split_whitespace`) goes by.
pub open spec fn is_white(c: char) -> bool {
    let u = c as u32;
    ||| 0x09 <= u <= 0x0d
    ||| u == 0x20
    ||| u == 0x85
    ||| u == 0xa0
    ||| u == 0x1680
    ||| 0x2000 <= u <= 0x200a
    ||| u == 0x2028
    ||| u == 0x2029
    ||| u == 0x202f
    ||| u == 0x205f
    ||| u == 0x3000
}

/// Whether a character is white space (see `is_white`).
fn white(c: char) -> (r: bool)
    ensures
        r == is_white(c),
{
    let u = c as u32;
    (0x09 <= u && u <= 0x0d) || u == 0x20 || u == 0x85 || u == 0xa0 || u == 0x1680 || (0x2000 <= u
        && u <= 0x200a) || u == 0x2028 || u == 0x2029 || u == 0x202f || u == 0x205f || u == 0x3000
}

/// The words of a text: its longest runs of characters that are not white space, in
/// order (what `str::split_whitespace` yields).
pub open spec fn words(s: Seq<char>) -> Seq<Seq<char>>
    decreases s.len(),
{
    if s.len() == 0 {
        Seq::empty()
    } else {
        let w = words(s.drop_last());
        let c = s.last();
        if is_white(c) {
            w
        } else if s.len() >= 2 && !is_white(s[s.len() - 2]) {
            w.update(w.len() - 1, w.last().push(c))
        } else {
            w.push(seq![c])
        }
    }
}

/// Strings as character sequences.
pub open spec fn texts(v: Seq<String>) -> Seq<Seq<char>> {
    v.map_values(|s: String| s@)
}

/// Splits a line into its words (see `words`).
pub fn split_words(line: &str) -> (r: Vec<String>)
    ensures
        texts(r@) == words(line@),
{
    let n = line.unicode_len();
    let mut ws: Vec<String> = Vec::new();
    let mut start: usize = 0;
    let mut i: usize = 0;
    assert(line@.take(0) =~= Seq::<char>::empty());
    while i < n
        invariant
            n == line@.len(),
            start <= i <= n,
            start < i ==> !is_white(line@[i - 1]),
            start == i ==> (i == 0 || is_white(line@[i - 1])),
            start < i ==> texts(ws@).push(line@.subrange(start as int, i as int)) == words(
                line@.take(i as int),
            ),
            start == i ==> texts(ws@) == words(line@.take(i as int)),
        decreases n - i,
    {
        let c = line.get_char(i);
        let ghost pre = line@.take(i as int);
        let ghost next = line@.take(i + 1);
        assert(next.drop_last() =~= pre);
        assert(next.last() == c);
        if white(c) {
            if start < i {
                let ghost before = ws@;
                let w = line.substring_char(start, i).to_owned();
                ws.push(w);
                assert(texts(ws@) =~= texts(before).push(line@.subrange(start as int, i as int)));
            }
            start = i + 1;
        } else {
            if start < i {
                assert(next[next.len() - 2] == line@[i - 1]);
                assert(line@.subrange(start as int, i + 1) =~= line@.subrange(start as int, i as int).push(c));
            } else {
                assert(line@.subrange(start as int, i + 1) =~= seq![c]);
            }
        }
        i = i + 1;
    }
    assert(line@.take(n as int) =~= line@);
    if start < n {
        let ghost before = ws@;
        let w = line.substring_char(start, n).to_owned();
        ws.push(w);
        assert(texts(ws@) =~= texts(before).push(line@.subrange(start as int, n as int)));
    }
    assert(texts(ws@) =~= words(line@));
    ws
}

/// What a command line asks of the wallet.
#[derive(Clone, Copy, Debug, PartialEq, Eq, Structural)]
pub enum CliAction {
    /// A line without words: ask again.
    Nothing,
    /// `balance`: show the balance.
    Balance,
    /// `send` without exactly a contact and an amount: show how to use it.
    Usage,
    /// `send` with an amount that is no `u64`.
    BadAmount,
    /// `send` to a name that no contact has.
    UnknownContact,
    /// `send`: pay the amount to the contact at this position.
    Send { contact: usize, amount: u64 },
    /// `exit`: stop.
    Exit,
    /// Any other command.
    Unknown,
}

/// Whether every character is a decimal digit.
pub open spec fn all_digits(s: Seq<char>) -> bool {
    forall|i: int| 0 <= i < s.len() ==> 48 <= #[trigger] (s[i] as u32) <= 57
}

/// The number that decimal digits write.
pub open spec fn digits_value(s: Seq<char>) -> nat
    decreases s.len(),
{
    if s.len() == 0 {
        0
    } else {
        digits_value(s.drop_last()) * 10 + ((s.last() as u32) - 48) as nat
    }
}

/// What `str::parse::<u64>` gives: an optional `+`, then one or more decimal digits
/// whose number fits in `u64`; `None` for anything else.
pub open spec fn parse_u64(s: Seq<char>) -> Option<u64> {
    let d = if s.len() > 0 && s[0] == '+' {
        s.drop_first()
    } else {
        s
    };
    if d.len() > 0 && all_digits(d) && digits_value(d) <= u64::MAX {
        Some(digits_value(d) as u64)
    } else {
        None
    }
}

/// The number of the first digits is at most that of all of them.
pub proof fn lemma_digits_value_prefix(s: Seq<char>, k: int)
    requires
        all_digits(s),
        0 <= k <= s.len(),
    ensures
        digits_value(s.take(k)) <= digits_value(s),
    decreases s.len(),
{
    if k < s.len() {
        assert(s.drop_last().take(k) =~= s.take(k));
        assert(all_digits(s.drop_last())) by {
            assert forall|i: int| 0 <= i < s.drop_last().len() implies 48 <= #[trigger] (
            s.drop_last()[i] as u32) <= 57 by {
                assert(s.drop_last()[i] == s[i]);
            }
        }
        lemma_digits_value_prefix(s.drop_last(), k);
    } else {
        assert(s.take(k) =~= s);
    }
}

/// Parses a word as a `u64` (see `parse_u64`).
pub fn parse_amount(w: &str) -> (r: Option<u64>)
    ensures
        r == parse_u64(w@),
{
    let n = w.unicode_len();
    let mut i: usize = 0;
    if n > 0 && w.get_char(0) == '+' {
        i = 1;
    }
    let ghost d = if w@.len() > 0 && w@[0] == '+' {
        w@.drop_first()
    } else {
        w@
    };
    assert(d =~= w@.subrange(i as int, n as int));
    if i == n {
        return None;
    }
    let start = i;
    let mut v: u64 = 0;
    assert(d.take(0) =~= Seq::<char>::empty());
    while i < n
        invariant
            n == w@.len(),
            start <= i <= n,
            start < n,
            d =~= w@.subrange(start as int, n as int),
            parse_u64(w@) == (if d.len() > 0 && all_digits(d) && digits_value(d) <= u64::MAX {
                Some(digits_value(d) as u64)
            } else {
                None
            }),
            all_digits(d.take(i - start)),
            v == digits_value(d.take(i - start)),
        decreases n - i,
    {
        let c = w.get_char(i);
        let u = c as u32;
        let ghost k = i - start;
        assert(d[k] == c);
        assert(d.take(k + 1).drop_last() =~= d.take(k));
        if u < 48 || u > 57 {
            assert(!all_digits(d));
            return None;
        }
        let digit = (u - 48) as u64;
        assert(all_digits(d.take(k + 1))) by {
            assert forall|j: int| 0 <= j < k + 1 implies 48 <= #[trigger] (d.take(k + 1)[j] as u32) <= 57 by {
                if j < k {
                    assert(d.take(k + 1)[j] == d.take(k)[j]);
                }
            }
        }
        match v.checked_mul(10) {
            None => {
                proof {
                    lemma_digits_value_prefix(d.take(k + 1), k + 1);
                    assert(d.take(k + 1).take(k + 1) =~= d.take(k + 1));
                    if all_digits(d) {
                        lemma_digits_value_prefix(d, k + 1);
                    }
                }
                return None;
            },
            Some(t) => match t.checked_add(digit) {
                None => {
                    proof {
                        if all_digits(d) {
                            lemma_digits_value_prefix(d, k + 1);
                        }
                    }
                    return None;
                },
                Some(x) => {
                    v = x;
                },
            },
        }
        i = i + 1;
    }
    assert(d.take(n - start) =~= d);
    Some(v)
}

/// The position of the first name equal to `w`, from position `i` on.
pub open spec fn first_named(names: Seq<Seq<char>>, w: Seq<char>, i: int) -> Option<int>
    decreases names.len() - i,
{
    if i < 0 || i >= names.len() {
        None
    } else if names[i] == w {
        Some(i)
    } else {
        first_named(names, w, i + 1)
    }
}

/// What a line's words ask of the wallet, given the contacts' names: the first word is
/// the command; `send` takes a contact's name and an amount, and the amount is read
/// before the contact is looked up.
pub open spec fn cli_action(ws: Seq<Seq<char>>, names: Seq<Seq<char>>) -> CliAction {
    if ws.len() == 0 {
        CliAction::Nothing
    } else if ws[0] == "balance"@ {
        CliAction::Balance
    } else if ws[0] == "send"@ {
        if ws.len() != 3 {
            CliAction::Usage
        } else {
            match parse_u64(ws[2]) {
                None => CliAction::BadAmount,
                Some(amount) => match first_named(names, ws[1], 0) {
                    None => CliAction::UnknownContact,
                    Some(i) => CliAction::Send { contact: i as usize, amount },
                },
            }
        }
    } else if ws[0] == "exit"@ {
        CliAction::Exit
    } else {
        CliAction::Unknown
    }
}

/// Whether a word is the given text.
fn word_is(w: &String, text: &str) -> (r: bool)
    ensures
        r == (w@ == text@),
{
    let t = text.to_owned();
    w.eq(&t)
}

/// Decides what a command line asks of the wallet (see `cli_action`), given the
/// contacts' names in order.
#[verifier::loop_isolation(false)]
pub fn cli_step(line: &str, contacts: &Vec<String>) -> (r: CliAction)
    ensures
        r == cli_action(words(line@), texts(contacts@)),
{
    let ws = split_words(line);
    let ghost wv = texts(ws@);
    if ws.len() == 0 {
        return CliAction::Nothing;
    }
    assert(wv[0] == ws@[0]@);
    if word_is(&ws[0], "balance") {
        return CliAction::Balance;
    }
    if word_is(&ws[0], "send") {
        if ws.len() != 3 {
            return CliAction::Usage;
        }
        assert(wv[2] == ws@[2]@ && wv[1] == ws@[1]@);
        let amount = match parse_amount(ws[2].as_str()) {
            None => {
                return CliAction::BadAmount;
            },
            Some(a) => a,
        };
        let ghost names = texts(contacts@);
        let mut i: usize = 0;
        while i < contacts.len()
            invariant
                i <= contacts@.len(),
                names == texts(contacts@),
                first_named(names, wv[1], 0) == first_named(names, wv[1], i as int),
                wv[1] == ws@[1]@,
            decreases contacts@.len() - i,
        {
            assert(names[i as int] == contacts@[i as int]@);
            if contacts[i].eq(&ws[1]) {
                return CliAction::Send { contact: i, amount };
            }
            i = i + 1;
        }
        return CliAction::UnknownContact;
    }
    if word_is(&ws[0], "exit") {
        return CliAction::Exit;
    }
    CliAction::Unknown
}

} // verus!
