//! Memory pressure (PSI, Pressure Stall Information).
//!
//! Where the kernel takes a trigger, it tells when pressure crosses the threshold;
//! where it does not, the averages are polled; where neither is possible, only the
//! memory threshold is left to rely on.

use crate::binary64::{
    consistent, exact_is_kept, is_quotient, magnitude, nearest,
    no_number_lies_between_a_quotient_and_its_rounding, reading, rounding_is_unique, rounds_to,
    spelled, whole_numbers_are_exact, Binary64, INFINITY_BITS,
};
use crate::cgroup::{answered, askable, file_in, probed};
use crate::config::PsiTrigger;
use crate::path::UnixPath;
use crate::text::{
    a_word_is_a_word, chars_of, decimal, digit, lemma_decimal, lines, lines_of, push_decimal,
    push_text, same, same_chars, text_of, texts, white, white_space_separates_words, words,
    words_of,
};
use vstd::arithmetic::power2::pow2;
use vstd::prelude::*;
use vstd::slice::slice_subrange;

verus! {

/// The averages of a `memory.pressure` file.
#[derive(Clone, Copy, PartialEq, Eq, Debug, Structural)]
pub struct PsiAverages {
    pub some_avg10: Binary64,
    pub some_avg60: Binary64,
    pub some_avg300: Binary64,
    pub full_avg10: Binary64,
    pub full_avg60: Binary64,
    pub full_avg300: Binary64,
}

/// How pressure is watched, from the most capable way to the least.
#[derive(Debug)]
pub enum PsiHandle<H> {
    /// A trigger is armed; the handle becomes ready when pressure crosses it.
    Event(H),
    /// No trigger; poll the averages in this file.
    Poll(UnixPath),
    /// No pressure information; rely on the memory threshold only.
    Unavailable,
}

/// The three averages of a line.
pub type Averages = (Binary64, Binary64, Binary64);

/// The finite number that a `key=number` token states.
pub open spec fn avg_of<N: Fn(&str) -> Option<Binary64>>(
    number: N,
    token: Seq<char>,
    key: Seq<char>,
) -> Option<Binary64> {
    if token.len() >= key.len() && token.take(key.len() as int) == key {
        match reading(number, token.skip(key.len() as int)) {
            Some(v) => if v.finite() {
                Some(v)
            } else {
                None
            },
            None => None,
        }
    } else {
        None
    }
}

/// The averages that a line states, if it states all three.
pub open spec fn averages_of<N: Fn(&str) -> Option<Binary64>>(
    number: N,
    line: Seq<char>,
) -> Option<Averages> {
    let w = words_of(line);
    if w.len() < 4 {
        None
    } else {
        match (
            avg_of(number, w[1], "avg10="@),
            avg_of(number, w[2], "avg60="@),
            avg_of(number, w[3], "avg300="@),
        ) {
            (Some(a), Some(b), Some(c)) => Some((a, b, c)),
            _ => None,
        }
    }
}

/// The averages that the last line of a kind states.
pub open spec fn last_of<N: Fn(&str) -> Option<Binary64>>(
    number: N,
    lines: Seq<Seq<char>>,
    kind: Seq<char>,
) -> Option<Averages>
    decreases lines.len(),
{
    if lines.len() == 0 {
        None
    } else {
        let w = words_of(lines.last());
        match averages_of(number, lines.last()) {
            Some(v) => if w[0] == kind {
                Some(v)
            } else {
                last_of(number, lines.drop_last(), kind)
            },
            None => last_of(number, lines.drop_last(), kind),
        }
    }
}

/// The averages that a `memory.pressure` file states. It must have a `some` line; a
/// missing `full` line counts as no pressure.
pub open spec fn pressure_of<N: Fn(&str) -> Option<Binary64>>(
    number: N,
    lines: Seq<Seq<char>>,
) -> Option<PsiAverages> {
    let zero = Binary64 { bits: 0 };
    match last_of(number, lines, "some"@) {
        None => None,
        Some(some) => {
            let full = match last_of(number, lines, "full"@) {
                Some(full) => full,
                None => (zero, zero, zero),
            };
            Some(
                PsiAverages {
                    some_avg10: some.0,
                    some_avg60: some.1,
                    some_avg300: some.2,
                    full_avg10: full.0,
                    full_avg60: full.1,
                    full_avg300: full.2,
                },
            )
        },
    }
}

/// Parse a `key=number` token. `number` reads a decimal number; one that is not finite
/// counts as none, so that it cannot trigger on every poll.
pub fn parse_avg<N: Fn(&str) -> Option<Binary64>>(token: &str, key: &str, number: &N) -> (r: Option<
    Binary64,
>)
    requires
        forall|t: &str| call_requires(*number, (t,)),
        consistent(*number),
    ensures
        r == avg_of(*number, token@, key@),
{
    let token = chars_of(token);
    let key = chars_of(key);
    if token.len() < key.len() {
        return None;
    }
    let head = slice_subrange(token.as_slice(), 0, key.len());
    assert(head@ == token@.take(key@.len() as int));
    if !same_chars(head, key.as_slice()) {
        return None;
    }
    let rest = slice_subrange(token.as_slice(), key.len(), token.len());
    assert(rest@ == token@.skip(key@.len() as int));
    let text = text_of(rest);
    let v = number(text.as_str());
    assert(spelled(*number, rest@, v));
    assert(spelled(*number, rest@, reading(*number, rest@)));
    match v {
        Some(v) => if v.is_finite() {
            Some(v)
        } else {
            None
        },
        None => None,
    }
}

/// Parse the averages of a line.
fn parse_averages<N: Fn(&str) -> Option<Binary64>>(w: &Vec<&[char]>, number: &N) -> (r: Option<
    Averages,
>)
    requires
        forall|t: &str| call_requires(*number, (t,)),
        consistent(*number),
    ensures
        forall|line: Seq<char>| #[trigger]
            words_of(line) == texts(w@) ==> r == averages_of(*number, line),
{
    assert(texts(w@).len() == w@.len());
    if w.len() < 4 {
        return None;
    }
    assert(w@[1]@ == texts(w@)[1]);
    assert(w@[2]@ == texts(w@)[2]);
    assert(w@[3]@ == texts(w@)[3]);
    match (
        parse_avg(text_of(w[1]).as_str(), "avg10=", number),
        parse_avg(text_of(w[2]).as_str(), "avg60=", number),
        parse_avg(text_of(w[3]).as_str(), "avg300=", number),
    ) {
        (Some(a), Some(b), Some(c)) => Some((a, b, c)),
        _ => None,
    }
}

/// Parse a `memory.pressure` file. `number` reads a decimal number. Lines that state no
/// averages are skipped.
pub fn parse_pressure<N: Fn(&str) -> Option<Binary64>>(text: &str, number: &N) -> (r: Option<
    PsiAverages,
>)
    requires
        forall|t: &str| call_requires(*number, (t,)),
        consistent(*number),
    ensures
        r == pressure_of(*number, lines_of(text@)),
{
    let chars = chars_of(text);
    let all = lines(chars.as_slice());
    let mut some: Option<Averages> = None;
    let mut full: Option<Averages> = None;
    let mut i: usize = 0;
    proof {
        reveal_strlit("some");
        reveal_strlit("full");
        assert("some"@[0] != "full"@[0]);
    }
    while i < all.len()
        invariant
            i <= all@.len(),
            forall|t: &str| call_requires(*number, (t,)),
            consistent(*number),
            "some"@ != "full"@,
            some == last_of(*number, texts(all@).take(i as int), "some"@),
            full == last_of(*number, texts(all@).take(i as int), "full"@),
        decreases all@.len() - i,
    {
        let line = all[i];
        let w = words(line);
        let ghost before = texts(all@).take(i as int);
        let ghost after = texts(all@).take(i + 1);
        assert(after.drop_last() == before);
        assert(after.last() == line@);
        if let Some(v) = parse_averages(&w, number) {
            assert(w@[0]@ == texts(w@)[0]);
            if same(w[0], "some") {
                some = Some(v);
            } else if same(w[0], "full") {
                full = Some(v);
            }
        }
        i = i + 1;
    }
    assert(texts(all@).take(i as int) == texts(all@));
    let some = match some {
        Some(some) => some,
        None => {
            return None;
        },
    };
    let full = match full {
        Some(full) => full,
        None => (Binary64::zero(), Binary64::zero(), Binary64::zero()),
    };
    Some(
        PsiAverages {
            some_avg10: some.0,
            some_avg60: some.1,
            some_avg300: some.2,
            full_avg10: full.0,
            full_avg60: full.1,
            full_avg300: full.2,
        },
    )
}

/// Whether `t` is the share of time, in percent, that the trigger stands for:
/// `100 * stall / window`.
pub open spec fn is_threshold(trigger: PsiTrigger, t: Binary64) -> bool {
    exists|h: Binary64|
        rounds_to(
            100 * magnitude(nearest(trigger.stall_us as nat).bits as int),
            1,
            h.bits as int,
        ) && #[trigger] is_quotient(h, nearest(trigger.window_us as nat), t)
}

/// The share of time, in percent, that the trigger stands for.
pub fn threshold_pct(trigger: &PsiTrigger) -> (t: Binary64)
    ensures
        is_threshold(*trigger, t),
{
    let h = Binary64::from_u64(trigger.stall_us).times_hundred();
    let t = h.div(Binary64::from_u64(trigger.window_us));
    assert(is_quotient(h, nearest(trigger.window_us as nat), t));
    t
}

/// Whether the pressure in a `memory.pressure` file has reached the threshold `t`.
pub open spec fn reached<X, N: Fn(&str) -> Option<Binary64>>(
    number: N,
    content: Result<String, X>,
    t: Binary64,
) -> bool {
    match content {
        Err(_) => false,
        Ok(text) => match pressure_of(number, lines_of(text@)) {
            None => false,
            Some(averages) => averages.some_avg10.at_least(t),
        },
    }
}

/// Read the averages and say whether the ten-second average has reached the trigger's
/// threshold. A file that cannot be read or parsed never triggers: a missed restart is
/// better than a false one.
pub fn poll_triggered<X, R: Fn(&UnixPath) -> Result<String, X>, N: Fn(&str) -> Option<Binary64>>(
    path: &UnixPath,
    trigger: &PsiTrigger,
    read: &R,
    number: &N,
) -> (r: bool)
    requires
        askable(*read, path.bytes@),
        forall|t: &str| call_requires(*number, (t,)),
        consistent(*number),
    ensures
        exists|content: Result<String, X>, t: Binary64|
            {
                &&& #[trigger] answered(*read, path.bytes@, content)
                &&& #[trigger] is_threshold(*trigger, t)
                &&& r == reached(*number, content, t)
            },
{
    let t = threshold_pct(trigger);
    let content = read(path);
    assert(answered(*read, path.bytes@, content));
    assert(is_threshold(*trigger, t));
    match content {
        Err(_) => false,
        Ok(text) => match parse_pressure(text.as_str(), number) {
            None => false,
            Some(averages) => averages.some_avg10.ge(t),
        },
    }
}

/// The text that arms a trigger.
pub open spec fn command_of(trigger: PsiTrigger) -> Seq<char> {
    "some "@ + decimal(trigger.stall_us as nat) + " "@ + decimal(trigger.window_us as nat)
}

/// The text that arms a trigger.
pub fn trigger_command(trigger: &PsiTrigger) -> (s: String)
    ensures
        s@ == command_of(*trigger),
{
    let mut s = "some ".to_owned();
    push_decimal(&mut s, trigger.stall_us);
    push_text(&mut s, " ");
    push_decimal(&mut s, trigger.window_us);
    s
}

/// `write` can make this of the handle and the text.
pub open spec fn wrote<H, W: Fn(H, &str) -> Option<H>>(
    write: W,
    handle: H,
    text: Seq<char>,
    result: Option<H>,
) -> bool {
    exists|s: &str| s@ == text && #[trigger] call_ensures(write, (handle, s), result)
}

/// Whether `r` is the most capable way to watch pressure that the file allows: armed if
/// it can be opened and written, polled if it can only be read, unavailable if it is
/// not there or cannot be read.
pub open spec fn is_best_way<
    H,
    E: Fn(&UnixPath) -> bool,
    O: Fn(&UnixPath) -> Option<H>,
    W: Fn(H, &str) -> Option<H>,
    C: Fn(&UnixPath) -> bool,
>(
    path: Seq<u8>,
    trigger: PsiTrigger,
    present: E,
    opener: O,
    write: W,
    can_read: C,
    r: PsiHandle<H>,
) -> bool {
    ||| probed(present, path, false) && r is Unavailable
    ||| {
        &&& probed(present, path, true)
        &&& exists|opened: Option<H>| #[trigger]
            answered(opener, path, opened) && match opened {
                Some(handle) => exists|armed: Option<H>| #[trigger]
                    wrote(write, handle, command_of(trigger), armed) && match armed {
                        Some(h) => r == PsiHandle::Event(h),
                        None => r matches PsiHandle::Poll(p) && p.bytes@ == path,
                    },
                None => exists|readable: bool| #[trigger]
                    probed(can_read, path, readable) && if readable {
                        r matches PsiHandle::Poll(p) && p.bytes@ == path
                    } else {
                        r is Unavailable
                    },
            }
    }
}

/// Watch `memory.pressure` under `root` in the most capable way. `opener` opens a file for
/// reading and writing, `write` writes to it, `can_read` says whether it opens for reading.
pub fn open<
    H,
    E: Fn(&UnixPath) -> bool,
    O: Fn(&UnixPath) -> Option<H>,
    W: Fn(H, &str) -> Option<H>,
    C: Fn(&UnixPath) -> bool,
>(
    root: &UnixPath,
    trigger: &PsiTrigger,
    present: &E,
    opener: &O,
    write: &W,
    can_read: &C,
) -> (r: PsiHandle<H>)
    requires
        forall|p: &UnixPath| call_requires(*present, (p,)),
        forall|p: &UnixPath| call_requires(*opener, (p,)),
        forall|h: H, s: &str| call_requires(*write, (h, s)),
        forall|p: &UnixPath| call_requires(*can_read, (p,)),
    ensures
        is_best_way(
            file_in(root.bytes@, "memory.pressure"@),
            *trigger,
            *present,
            *opener,
            *write,
            *can_read,
            r,
        ),
{
    let path = root.join(&UnixPath::new("memory.pressure"));
    assert(path.bytes@ == file_in(root.bytes@, "memory.pressure"@));
    if !present(&path) {
        assert(probed(*present, path.bytes@, false));
        return PsiHandle::Unavailable;
    }
    assert(probed(*present, path.bytes@, true));
    let opened = opener(&path);
    assert(answered(*opener, path.bytes@, opened));
    match opened {
        Some(handle) => {
            let command = trigger_command(trigger);
            let ghost h = handle;
            let armed = write(handle, command.as_str());
            assert(wrote(*write, h, command_of(*trigger), armed));
            match armed {
                Some(armed) => PsiHandle::Event(armed),
                None => PsiHandle::Poll(path),
            }
        },
        None => {
            let readable = can_read(&path);
            assert(probed(*can_read, path.bytes@, readable));
            if readable {
                PsiHandle::Poll(path)
            } else {
                PsiHandle::Unavailable
            }
        },
    }
}

/// Polling depends on the ten-second `some` average alone: of two files that state the same
/// one, either both trigger or neither does, whatever else they state. A file triggers
/// exactly if it can be read, states its averages, and that average is at least the
/// threshold.
pub proof fn polling_goes_by_the_ten_second_average<X, N: Fn(&str) -> Option<Binary64>>(
    number: N,
    a: String,
    b: String,
    failure: X,
    t: Binary64,
)
    ensures
        (pressure_of(number, lines_of(a@)) matches Some(x) && pressure_of(
            number,
            lines_of(b@),
        ) matches Some(y) && x.some_avg10 == y.some_avg10) ==> reached::<X, N>(number, Ok(a), t)
            == reached::<X, N>(number, Ok(b), t),
        reached::<X, N>(number, Ok(a), t) <==> (pressure_of(number, lines_of(a@)) matches Some(x)
            && !x.some_avg10.nan() && !t.nan() && x.some_avg10.scaled() >= t.scaled()),
        pressure_of(number, lines_of(a@)) is None ==> !reached::<X, N>(number, Ok(a), t),
        !reached::<X, N>(number, Err(failure), t),
{
}

/// Pressure triggers at the configured share of time. An average at or above the exact
/// share, `100 * stall / window` percent, always triggers; one below it never does, as far
/// as there is any number between the two.
pub proof fn polling_triggers_at_the_configured_share(
    trigger: PsiTrigger,
    t: Binary64,
    average: Binary64,
    between: Binary64,
)
    requires
        is_threshold(trigger, t),
        100 * trigger.stall_us <= 0x20_0000_0000_0000,
        0 < trigger.window_us <= 0x20_0000_0000_0000,
        average.bits <= INFINITY_BITS,
        between.bits <= INFINITY_BITS,
    ensures
        average.scaled() * trigger.window_us >= 100 * trigger.stall_us * pow2(1074)
            ==> average.at_least(t),
        (average.scaled() < between.scaled() && between.scaled() * trigger.window_us <= 100
            * trigger.stall_us * pow2(1074)) ==> !average.at_least(t),
{
    let stall = trigger.stall_us as nat;
    let p = pow2(1074);
    let h = choose|h: Binary64|
        rounds_to(100 * magnitude(nearest(stall).bits as int), 1, h.bits as int)
            && #[trigger] is_quotient(h, nearest(trigger.window_us as nat), t);
    whole_numbers_are_exact(stall);
    whole_numbers_are_exact(100 * stall);
    assert(100 * (stall * p) == (100 * stall) * p) by (nonlinear_arith);
    exact_is_kept(1, nearest(100 * stall).bits as int);
    rounding_is_unique(
        (100 * stall) * p,
        1,
        h.bits as int,
        nearest(100 * stall).bits as int,
    );
    no_number_lies_between_a_quotient_and_its_rounding(
        100 * stall,
        trigger.window_us as nat,
        t,
        average,
    );
    no_number_lies_between_a_quotient_and_its_rounding(
        100 * stall,
        trigger.window_us as nat,
        t,
        between,
    );
}

/// Whether the line begins with the kind and the three averages, spelled by `a`, `b` and `c`.
pub open spec fn is_pressure_line(
    line: Seq<char>,
    kind: Seq<char>,
    a: Seq<char>,
    b: Seq<char>,
    c: Seq<char>,
) -> bool {
    let w = words_of(line);
    &&& w.len() >= 4
    &&& w[0] == kind
    &&& w[1] == "avg10="@ + a
    &&& w[2] == "avg60="@ + b
    &&& w[3] == "avg300="@ + c
}

proof fn lemma_keyed(key: Seq<char>, value: Seq<char>)
    ensures
        (key + value).take(key.len() as int) == key,
        (key + value).skip(key.len() as int) == value,
{
}

proof fn lemma_pressure_line<N: Fn(&str) -> Option<Binary64>>(
    number: N,
    line: Seq<char>,
    kind: Seq<char>,
    a: Seq<char>,
    b: Seq<char>,
    c: Seq<char>,
    x: Binary64,
    y: Binary64,
    z: Binary64,
)
    requires
        is_pressure_line(line, kind, a, b, c),
        reading(number, a) == Some(x) && x.finite(),
        reading(number, b) == Some(y) && y.finite(),
        reading(number, c) == Some(z) && z.finite(),
    ensures
        averages_of(number, line) == Some((x, y, z)),
{
    lemma_keyed("avg10="@, a);
    lemma_keyed("avg60="@, b);
    lemma_keyed("avg300="@, c);
}

/// The `some` line of a pressure file states the averages that count: the first number is
/// the ten-second one, and it alone decides. The `full` line behind it changes nothing about
/// that, nor do the longer averages.
pub proof fn the_some_line_decides<X, N: Fn(&str) -> Option<Binary64>>(
    number: N,
    text: String,
    a: Seq<char>,
    b: Seq<char>,
    c: Seq<char>,
    d: Seq<char>,
    e: Seq<char>,
    f: Seq<char>,
    some: Averages,
    full: Averages,
    t: Binary64,
)
    requires
        lines_of(text@).len() == 2,
        is_pressure_line(lines_of(text@)[0], "some"@, a, b, c),
        is_pressure_line(lines_of(text@)[1], "full"@, d, e, f),
        reading(number, a) == Some(some.0) && some.0.finite(),
        reading(number, b) == Some(some.1) && some.1.finite(),
        reading(number, c) == Some(some.2) && some.2.finite(),
        reading(number, d) == Some(full.0) && full.0.finite(),
        reading(number, e) == Some(full.1) && full.1.finite(),
        reading(number, f) == Some(full.2) && full.2.finite(),
    ensures
        pressure_of(number, lines_of(text@)) == Some(
            PsiAverages {
                some_avg10: some.0,
                some_avg60: some.1,
                some_avg300: some.2,
                full_avg10: full.0,
                full_avg60: full.1,
                full_avg300: full.2,
            },
        ),
        reached::<X, N>(number, Ok(text), t) <==> !t.nan() && some.0.scaled() >= t.scaled(),
{
    let all = lines_of(text@);
    reveal_strlit("some");
    reveal_strlit("full");
    assert("some"@[0] != "full"@[0]);
    lemma_pressure_line(number, all[0], "some"@, a, b, c, some.0, some.1, some.2);
    lemma_pressure_line(number, all[1], "full"@, d, e, f, full.0, full.1, full.2);
    assert(all.last() == all[1]);
    assert(all.drop_last().last() == all[0]);
    reveal_with_fuel(last_of, 3);
}

/// Of several lines of a kind the last one that states its averages counts; lines of another
/// kind, and lines that state none, change nothing.
pub proof fn the_last_line_of_a_kind_counts<N: Fn(&str) -> Option<Binary64>>(
    number: N,
    lines: Seq<Seq<char>>,
    line: Seq<char>,
    kind: Seq<char>,
)
    ensures
        (averages_of(number, line) is Some && words_of(line)[0] == kind) ==> last_of(
            number,
            lines.push(line),
            kind,
        ) == averages_of(number, line),
        (averages_of(number, line) is None || words_of(line)[0] != kind) ==> last_of(
            number,
            lines.push(line),
            kind,
        ) == last_of(number, lines, kind),
        last_of(number, Seq::empty(), kind) is None,
{
    assert(lines.push(line).drop_last() == lines);
    assert(lines.push(line).last() == line);
}

/// An average that is no finite number counts as none, so that it cannot trigger; nor does a
/// token with another key.
pub proof fn averages_are_finite_numbers<N: Fn(&str) -> Option<Binary64>>(
    number: N,
    token: Seq<char>,
    key: Seq<char>,
    value: Seq<char>,
)
    ensures
        avg_of(number, token, key) matches Some(v) ==> v.finite() && !v.nan(),
        reading(number, value) matches Some(v) ==> (v.finite() ==> avg_of(number, key + value, key)
            == Some(v)),
        reading(number, value) matches Some(v) ==> (!v.finite() ==> avg_of(number, key + value, key)
            is None),
        reading(number, value) is None ==> avg_of(number, key + value, key) is None,
        (token.len() < key.len() || token.take(key.len() as int) != key) ==> avg_of(
            number,
            token,
            key,
        ) is None,
{
    lemma_keyed(key, value);
}

/// A file without a `some` line states no pressure; one without a `full` line states none of
/// that kind.
pub proof fn missing_lines_state_no_pressure<N: Fn(&str) -> Option<Binary64>>(number: N, lines: Seq<Seq<char>>)
    ensures
        last_of(number, lines, "some"@) is None <==> pressure_of(number, lines) is None,
        pressure_of(number, lines) matches Some(p) ==> {
            &&& last_of(number, lines, "some"@) == Some(
                (p.some_avg10, p.some_avg60, p.some_avg300),
            )
            &&& last_of(number, lines, "full"@) is None ==> p.full_avg10.bits == 0
                && p.full_avg60.bits == 0 && p.full_avg300.bits == 0
            &&& last_of(number, lines, "full"@) is Some ==> last_of(number, lines, "full"@) == Some(
                (p.full_avg10, p.full_avg60, p.full_avg300),
            )
        },
{
}

/// A trigger is armed with its kind and its two numbers, stall before window.
pub proof fn triggers_are_armed_with_their_numbers(trigger: PsiTrigger)
    ensures
        words_of(command_of(trigger)) == seq![
            "some"@,
            decimal(trigger.stall_us as nat),
            decimal(trigger.window_us as nat),
        ],
{
    let a = decimal(trigger.stall_us as nat);
    let b = decimal(trigger.window_us as nat);
    reveal_strlit("some");
    reveal_strlit("some ");
    reveal_strlit(" ");
    lemma_decimal(trigger.stall_us as nat);
    lemma_decimal(trigger.window_us as nat);
    assert forall|i: int| 0 <= i < a.len() implies !white(#[trigger] a[i]) by {
        assert(digit(a[i]));
    }
    assert forall|i: int| 0 <= i < b.len() implies !white(#[trigger] b[i]) by {
        assert(digit(b[i]));
    }
    a_word_is_a_word("some"@);
    a_word_is_a_word(a);
    a_word_is_a_word(b);
    white_space_separates_words(a, ' ', b);
    white_space_separates_words("some"@, ' ', a + seq![' '] + b);
    assert(command_of(trigger) == "some"@ + seq![' '] + (a + seq![' '] + b));
    assert(seq!["some"@] + (seq![a] + seq![b]) == seq!["some"@, a, b]);
}

/// Pressure is watched in the way that the file allowed: armed only with a handle that took
/// the trigger, polled only from the file itself, and unavailable only if the file is not
/// there or opens in no way.
pub proof fn pressure_is_watched_as_allowed<
    H,
    E: Fn(&UnixPath) -> bool,
    O: Fn(&UnixPath) -> Option<H>,
    W: Fn(H, &str) -> Option<H>,
    C: Fn(&UnixPath) -> bool,
>(
    path: Seq<u8>,
    trigger: PsiTrigger,
    present: E,
    opener: O,
    write: W,
    can_read: C,
    r: PsiHandle<H>,
)
    requires
        is_best_way(path, trigger, present, opener, write, can_read, r),
    ensures
        !(r is Unavailable) ==> probed(present, path, true),
        r matches PsiHandle::Event(h) ==> exists|handle: H|
            answered(opener, path, Some(handle)) && #[trigger] wrote(
                write,
                handle,
                command_of(trigger),
                Some(h),
            ),
        r matches PsiHandle::Poll(p) ==> p.bytes@ == path && ((answered(opener, path, None::<H>)
            && probed(can_read, path, true)) || exists|handle: H|
            answered(opener, path, Some(handle)) && #[trigger] wrote(
                write,
                handle,
                command_of(trigger),
                None,
            )),
        r is Unavailable ==> probed(present, path, false) || (answered(opener, path, None::<H>)
            && probed(can_read, path, false)),
{
    if !(probed(present, path, false) && r is Unavailable) {
        let opened = choose|opened: Option<H>| #[trigger]
            answered(opener, path, opened) && match opened {
                Some(handle) => exists|armed: Option<H>| #[trigger]
                    wrote(write, handle, command_of(trigger), armed) && match armed {
                        Some(h) => r == PsiHandle::Event(h),
                        None => r matches PsiHandle::Poll(p) && p.bytes@ == path,
                    },
                None => exists|readable: bool| #[trigger]
                    probed(can_read, path, readable) && if readable {
                        r matches PsiHandle::Poll(p) && p.bytes@ == path
                    } else {
                        r is Unavailable
                    },
            };
        assert(answered(opener, path, opened));
        if let Some(handle) = opened {
            let armed = choose|armed: Option<H>| #[trigger]
                wrote(write, handle, command_of(trigger), armed) && match armed {
                    Some(h) => r == PsiHandle::Event(h),
                    None => r matches PsiHandle::Poll(p) && p.bytes@ == path,
                };
            assert(wrote(write, handle, command_of(trigger), armed));
            if let PsiHandle::Event(h) = r {
                assert(armed == Some(h));
            }
        }
    }
}

} // verus!
