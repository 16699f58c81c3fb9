//! The control protocol: what a client asks, what the daemon answers, and the
//! text form `<exit-code>:<message>` in which an answer travels back.

use vstd::prelude::*;

verus! {

/// One client intent.
pub enum Action {
    Add { dest: String, cwd: String, cmd: Vec<String> },
    Remove { dest: String },
    Quit,
}

/// What a handler decided for one command.
pub enum Response {
    /// Success with an exit code and a message for the client.
    Respond(i32, String),
    /// Success, nothing to say.
    Silent,
    /// Success, and the command loop stops.
    Quit,
}

/// One message in the mailbox: where to reply, and what is asked.
pub struct Cmd {
    pub response: String,
    pub action: Action,
}

impl Cmd {
    pub fn new(response: String, action: Action) -> (r: Cmd)
        ensures
            r.response == response,
            r.action == action,
    {
        Cmd { response, action }
    }
}

pub open spec fn digit_chars() -> Seq<char> {
    seq!['0', '1', '2', '3', '4', '5', '6', '7', '8', '9']
}

pub open spec fn is_digit(c: char) -> bool {
    '0' <= c && c <= '9'
}

pub open spec fn digit_value(c: char) -> int {
    c as int - '0' as int
}

pub open spec fn all_digits(s: Seq<char>) -> bool {
    forall|i: int| 0 <= i < s.len() ==> is_digit(#[trigger] s[i])
}

pub open spec fn has_no_colon(s: Seq<char>) -> bool {
    forall|i: int| 0 <= i < s.len() ==> #[trigger] s[i] != ':'
}

/// Decimal digits of `n`, most significant first, without leading zeros.
pub open spec fn nat_text(n: nat) -> Seq<char>
    decreases n,
{
    if n < 10 {
        seq![digit_chars()[n as int]]
    } else {
        nat_text(n / 10).push(digit_chars()[(n % 10) as int])
    }
}

/// `i` in base 10, with a leading `-` when negative.
pub open spec fn int_text(i: int) -> Seq<char> {
    if i < 0 {
        seq!['-'] + nat_text((-i) as nat)
    } else {
        nat_text(i as nat)
    }
}

/// The number that a string of decimal digits spells.
pub open spec fn digits_value(s: Seq<char>) -> int
    decreases s.len(),
{
    if s.len() == 0 {
        0
    } else {
        10 * digits_value(s.drop_last()) + digit_value(s.last())
    }
}

/// What `s` reads as an `i32`: an optional `+` or `-`, then one or more
/// decimal digits, spelling a value within the range of `i32`.
pub open spec fn parsed_i32(s: Seq<char>) -> Option<i32> {
    let signed = s.len() > 0 && (s[0] == '-' || s[0] == '+');
    let digits = if signed { s.drop_first() } else { s };
    let v = if signed && s[0] == '-' { -digits_value(digits) } else { digits_value(digits) };
    if digits.len() == 0 || !all_digits(digits) || v < i32::MIN || v > i32::MAX {
        None
    } else {
        Some(v as i32)
    }
}

/// The reply text for exit code `code` and `message`.
pub open spec fn reply_text(code: int, message: Seq<char>) -> Seq<char> {
    int_text(code) + seq![':'] + message
}

/// Where the exit code of a reply ends: at its first colon, or at its end.
pub open spec fn code_end(s: Seq<char>) -> int
    decreases s.len(),
{
    if s.len() == 0 || s[0] == ':' {
        0
    } else {
        1 + code_end(s.drop_first())
    }
}

/// What a client reads from reply text `s`: the exit code before the first
/// colon and the message after it (empty where there is no colon); nothing
/// where the code is not an `i32`.
pub open spec fn parsed_reply(s: Seq<char>) -> Option<(i32, Seq<char>)> {
    let k = code_end(s);
    match parsed_i32(s.take(k)) {
        None => None,
        Some(c) => Some((c, if k < s.len() { s.skip(k + 1) } else { Seq::empty() })),
    }
}

/// The reply that a handler's outcome sends: `Ok` of a response, or `Err` of
/// an error's text.
pub open spec fn outcome_reply(outcome: Result<Response, String>) -> Seq<char> {
    match outcome {
        Ok(Response::Respond(code, message)) => reply_text(code as int, message@),
        Ok(Response::Silent) => reply_text(0, Seq::empty()),
        Ok(Response::Quit) => reply_text(0, Seq::empty()),
        Err(e) => reply_text(1, e@),
    }
}

/// Whether the command loop reads another command after this outcome.
pub open spec fn outcome_continues(outcome: Result<Response, String>) -> bool {
    !(outcome matches Ok(Response::Quit))
}

proof fn lemma_digit_chars(d: int)
    requires
        0 <= d < 10,
    ensures
        is_digit(digit_chars()[d]),
        digit_value(digit_chars()[d]) == d,
{
}

proof fn lemma_nat_text(n: nat)
    ensures
        nat_text(n).len() > 0,
        all_digits(nat_text(n)),
        digits_value(nat_text(n)) == n,
    decreases n,
{
    if n < 10 {
        lemma_digit_chars(n as int);
        assert(nat_text(n).drop_last() =~= Seq::<char>::empty());
        assert(digits_value(Seq::<char>::empty()) == 0);
    } else {
        lemma_digit_chars((n % 10) as int);
        lemma_nat_text(n / 10);
        assert(nat_text(n).drop_last() =~= nat_text(n / 10));
        assert(n == 10 * (n / 10) + n % 10) by (nonlinear_arith);
    }
}

proof fn lemma_digits_value_nonneg(s: Seq<char>)
    requires
        all_digits(s),
    ensures
        digits_value(s) >= 0,
    decreases s.len(),
{
    if s.len() > 0 {
        assert(all_digits(s.drop_last()));
        lemma_digits_value_nonneg(s.drop_last());
        assert(is_digit(s[s.len() - 1]));
    }
}

proof fn lemma_code_end_text(a: Seq<char>, m: Seq<char>)
    requires
        has_no_colon(a),
    ensures
        code_end(a + seq![':'] + m) == a.len(),
    decreases a.len(),
{
    let s = a + seq![':'] + m;
    if a.len() > 0 {
        assert(has_no_colon(a.drop_first()));
        lemma_code_end_text(a.drop_first(), m);
        assert(s.drop_first() =~= a.drop_first() + seq![':'] + m);
    } else {
        assert(s[0] == ':');
    }
}

/// Reading an `i32` back from its decimal text gives the same value.
pub proof fn lemma_int_text_round_trip(v: i32)
    ensures
        parsed_i32(int_text(v as int)) == Some(v),
{
    if v < 0 {
        lemma_nat_text((-v) as nat);
        let t = int_text(v as int);
        assert(t.drop_first() =~= nat_text((-v) as nat));
    } else {
        lemma_nat_text(v as nat);
        lemma_digit_chars(0);
        let t = nat_text(v as nat);
        assert(is_digit(t[0]));
    }
}

/// A client reads back exactly the exit code and message that a reply was
/// written with.
pub proof fn lemma_reply_round_trip(code: i32, message: Seq<char>)
    ensures
        parsed_reply(reply_text(code as int, message)) == Some((code, message)),
{
    let t = int_text(code as int);
    let s = reply_text(code as int, message);
    if code < 0 {
        lemma_nat_text((-code) as nat);
    } else {
        lemma_nat_text(code as nat);
    }
    assert(has_no_colon(t)) by {
        assert forall|i: int| 0 <= i < t.len() implies #[trigger] t[i] != ':' by {
            if code < 0 && i > 0 {
                assert(t[i] == nat_text((-code) as nat)[i - 1]);
                assert(is_digit(nat_text((-code) as nat)[i - 1]));
            } else if code >= 0 {
                assert(is_digit(t[i]));
            }
        }
    }
    lemma_code_end_text(t, message);
    lemma_int_text_round_trip(code);
    assert(s.take(t.len() as int) =~= t);
    assert(s.skip(t.len() as int + 1) =~= message);
}

fn digit_str(d: u64) -> (r: &'static str)
    requires
        d < 10,
    ensures
        r@ == seq![digit_chars()[d as int]],
{
    let all = "0123456789";
    proof {
        reveal_strlit("0123456789");
        assert(all@ =~= digit_chars());
    }
    let r = all.substring_char(d as usize, d as usize + 1);
    assert(r@ =~= seq![digit_chars()[d as int]]);
    r
}

fn nat_to_text(n: u64) -> (r: String)
    ensures
        r@ == nat_text(n as nat),
    decreases n,
{
    if n < 10 {
        String::from_str(digit_str(n))
    } else {
        let mut r = nat_to_text(n / 10);
        r.append(digit_str(n % 10));
        r
    }
}

/// `v` in base 10.
pub fn int_to_text(v: i32) -> (r: String)
    ensures
        r@ == int_text(v as int),
{
    if v < 0 {
        let m: u64 = (0 - (v as i64)) as u64;
        proof {
            reveal_strlit("-");
        }
        let mut r = String::from_str("-");
        r.append(nat_to_text(m).as_str());
        r
    } else {
        nat_to_text(v as u64)
    }
}

/// Reads an `i32` as `str::parse` does: an optional sign, then decimal digits.
pub fn parse_i32(s: &str) -> (r: Option<i32>)
    ensures
        r == parsed_i32(s@),
{
    let n = s.unicode_len();
    let mut neg = false;
    let mut start: usize = 0;
    if n > 0 {
        let c0 = s.get_char(0);
        if c0 == '-' || c0 == '+' {
            neg = c0 == '-';
            start = 1;
        }
    }
    let ghost digits = if start == 1 { s@.drop_first() } else { s@ };
    assert(digits =~= s@.subrange(start as int, n as int));
    if start == n {
        assert(digits.len() == 0);
        return None;
    }
    let mut i: usize = start;
    let mut acc: u64 = 0;
    let mut over = false;
    while i < n
        invariant
            start <= i <= n,
            n == s@.len(),
            digits == s@.subrange(start as int, n as int),
            start == 0 || start == 1,
            start == 1 <==> (s@.len() > 0 && (s@[0] == '-' || s@[0] == '+')),
            neg <==> (start == 1 && s@[0] == '-'),
            all_digits(s@.subrange(start as int, i as int)),
            !over ==> acc == digits_value(s@.subrange(start as int, i as int)),
            !over ==> acc <= 2147483648,
            over ==> digits_value(s@.subrange(start as int, i as int)) > 2147483648,
        decreases n - i,
    {
        let c = s.get_char(i);
        if !('0' <= c && c <= '9') {
            assert(s@.subrange(start as int, n as int)[i - start] == c);
            assert(digits[i - start] == c);
            assert(!all_digits(digits));
            return None;
        }
        let d = (c as u32 - '0' as u32) as u64;
        let ghost prev = s@.subrange(start as int, i as int);
        let ghost next = s@.subrange(start as int, i + 1);
        assert(next.drop_last() =~= prev);
        assert(all_digits(next)) by {
            assert forall|j: int| 0 <= j < next.len() implies is_digit(#[trigger] next[j]) by {
                if j < prev.len() {
                    assert(next[j] == prev[j]);
                }
            }
        }
        proof {
            lemma_digits_value_nonneg(prev);
        }
        if !over {
            let m = acc * 10 + d;
            if m > 2147483648 {
                over = true;
            } else {
                acc = m;
            }
        }
        i = i + 1;
    }
    assert(s@.subrange(start as int, n as int) =~= digits);
    if over {
        None
    } else if neg {
        Some((0 - (acc as i64)) as i32)
    } else if acc <= 2147483647 {
        Some(acc as i32)
    } else {
        None
    }
}

/// The reply text `<code>:<message>`.
pub fn encode_reply(code: i32, message: &str) -> (r: String)
    ensures
        r@ == reply_text(code as int, message@),
{
    let mut r = int_to_text(code);
    proof {
        reveal_strlit(":");
    }
    r.append(":");
    r.append(message);
    r
}

/// Reads a reply: the exit code before the first colon, and the message after it.
pub fn parse_reply(s: &str) -> (r: Option<(i32, String)>)
    ensures
        match r {
            None => parsed_reply(s@) is None,
            Some((c, m)) => parsed_reply(s@) == Some((c, m@)),
        },
{
    let n = s.unicode_len();
    let mut k: usize = 0;
    assert(s@.skip(0) =~= s@);
    while k < n && s.get_char(k) != ':'
        invariant
            k <= n,
            n == s@.len(),
            code_end(s@) == k + code_end(s@.skip(k as int)),
        decreases n - k,
    {
        assert(s@.skip(k as int).drop_first() =~= s@.skip(k + 1));
        k = k + 1;
    }
    assert(code_end(s@.skip(k as int)) == 0);
    let code = s.substring_char(0, k);
    assert(code@ =~= s@.take(k as int));
    match parse_i32(code) {
        None => None,
        Some(c) => {
            if k < n {
                let m = s.substring_char(k + 1, n);
                assert(m@ =~= s@.skip(k + 1));
                Some((c, String::from_str(m)))
            } else {
                Some((c, String::new()))
            }
        },
    }
}

/// The reply that the daemon writes for a handler's outcome, and whether its
/// command loop goes on to the next command. A message that could not be read
/// as a command (`None`) gets no reply and stops the loop.
pub fn command_outcome(handled: Option<Result<Response, String>>) -> (r: (Option<String>, bool))
    ensures
        (r.0 is Some) <==> (handled is Some),
        (r.0 is Some) ==> r.0.unwrap()@ == outcome_reply(handled.unwrap()),
        r.1 == (handled is Some && outcome_continues(handled.unwrap())),
{
    proof {
        reveal_strlit("");
    }
    match handled {
        None => (None, false),
        Some(Ok(Response::Respond(code, message))) => (
            Some(encode_reply(code, message.as_str())),
            true,
        ),
        Some(Ok(Response::Silent)) => (Some(encode_reply(0, "")), true),
        Some(Ok(Response::Quit)) => (Some(encode_reply(0, "")), false),
        Some(Err(e)) => (Some(encode_reply(1, e.as_str())), true),
    }
}

} // verus!
