//! Device enumerator: selecting keyboard event nodes out of the text of the
//! platform's input-device registry.
//!
//! The registry is a byte text, one record line per row.  A line names
//! keyboard hardware when it starts with the handlers tag `H` and mentions
//! both the `kbd` and the `leds` capabilities; every whitespace-separated
//! token of such a line that starts with `event` names an event node, whose
//! device path is the token appended to `/dev/input/`.

use vstd::prelude::*;

verus! {

/// Line feed, the byte that separates registry lines.
pub const LINE_FEED: u8 = 10;

/// Carriage return, stripped from a line end if present.
pub const CARRIAGE_RETURN: u8 = 13;

/// The handlers tag: a selected line starts with `H`.
pub const HANDLERS_TAG: u8 = 72;

/// Whether a byte is ASCII whitespace (space, tab, line feed, vertical tab,
/// form feed or carriage return), the separator between tokens of a line.
pub open spec fn is_ws(b: u8) -> bool {
    b == 32 || (9 <= b && b <= 13)
}

/// The byte text `kbd`, the keyboard capability mark.
pub open spec fn kbd_pat() -> Seq<u8> {
    seq![107u8, 98u8, 100u8]
}

/// The byte text `leds`, the indicator-LED capability mark.
pub open spec fn leds_pat() -> Seq<u8> {
    seq![108u8, 101u8, 100u8, 115u8]
}

/// The byte text `event`, the lead of an event-node token.
pub open spec fn event_pat() -> Seq<u8> {
    seq![101u8, 118u8, 101u8, 110u8, 116u8]
}

/// The byte text `/dev/input/`, the directory every event node lives under.
pub open spec fn dev_input_prefix() -> Seq<u8> {
    seq![47u8, 100u8, 101u8, 118u8, 47u8, 105u8, 110u8, 112u8, 117u8, 116u8, 47u8]
}

/// Whether pattern `p` occurs in `s` at position `i`.
pub open spec fn contains_at(s: Seq<u8>, p: Seq<u8>, i: int) -> bool {
    0 <= i && i + p.len() <= s.len() && s.subrange(i, i + p.len() as int) == p
}

/// Whether pattern `p` occurs anywhere in `s`.
pub open spec fn contains_pat(s: Seq<u8>, p: Seq<u8>) -> bool {
    exists|i: int| contains_at(s, p, i)
}

/// Whether `s` starts with pattern `p`.
pub open spec fn starts_with(s: Seq<u8>, p: Seq<u8>) -> bool {
    contains_at(s, p, 0)
}

/// Position of the first occurrence of byte `b` in `s`, or `-1` if there is
/// none.
pub open spec fn find_first(s: Seq<u8>, b: u8) -> int
    decreases s.len(),
{
    if s.len() == 0 {
        -1
    } else if s[0] == b {
        0
    } else if find_first(s.drop_first(), b) < 0 {
        -1
    } else {
        find_first(s.drop_first(), b) + 1
    }
}

/// A line with its trailing carriage return, if any, stripped.
pub open spec fn strip_cr(l: Seq<u8>) -> Seq<u8> {
    if l.len() > 0 && l.last() == CARRIAGE_RETURN {
        l.drop_last()
    } else {
        l
    }
}

/// The lines of a byte text: the segments between line feeds, each with a
/// trailing carriage return stripped, and no empty final line after a
/// trailing line feed.
pub open spec fn split_lines(s: Seq<u8>) -> Seq<Seq<u8>>
    decreases s.len(),
    via split_lines_decreases
{
    if s.len() == 0 {
        Seq::<Seq<u8>>::empty()
    } else if find_first(s, LINE_FEED) < 0 {
        seq![strip_cr(s)]
    } else {
        seq![strip_cr(s.subrange(0, find_first(s, LINE_FEED)))] + split_lines(
            s.subrange(find_first(s, LINE_FEED) + 1, s.len() as int),
        )
    }
}

#[via_fn]
proof fn split_lines_decreases(s: Seq<u8>) {
    lemma_find_first(s, LINE_FEED);
}

/// Length of the leading run of non-whitespace bytes of `l`.
pub open spec fn run_len(l: Seq<u8>) -> nat
    decreases l.len(),
{
    if l.len() == 0 || is_ws(l[0]) {
        0
    } else {
        1 + run_len(l.drop_first())
    }
}

/// The first occurrence of byte `b` in `s` lies within `s`, carries `b`, and
/// nothing before it does; and a negative answer means `b` never occurs.
pub proof fn lemma_find_first(s: Seq<u8>, b: u8)
    ensures
        find_first(s, b) >= 0 ==> find_first(s, b) < s.len() && s[find_first(s, b)] == b && (
        forall|k: int| 0 <= k < find_first(s, b) ==> s[k] != b),
        find_first(s, b) < 0 ==> forall|k: int| 0 <= k < s.len() ==> s[k] != b,
    decreases s.len(),
{
    if s.len() == 0 {
    } else if s[0] == b {
    } else {
        lemma_find_first(s.drop_first(), b);
        if find_first(s, b) >= 0 {
            assert forall|k: int| 0 <= k < find_first(s, b) implies s[k] != b by {
                if k >= 1 {
                    assert(s.drop_first()[k - 1] == s[k]);
                }
            }
            assert(s[find_first(s, b)] == s.drop_first()[find_first(s, b) - 1]);
        } else {
            assert forall|k: int| 0 <= k < s.len() implies s[k] != b by {
                if k >= 1 {
                    assert(s.drop_first()[k - 1] == s[k]);
                }
            }
        }
    }
}

/// The leading non-whitespace run of `l` fits in `l`, consists of
/// non-whitespace bytes, and ends at the line end or at a whitespace byte.
pub proof fn lemma_run_len(l: Seq<u8>)
    ensures
        run_len(l) <= l.len(),
        forall|k: int| 0 <= k < run_len(l) ==> !is_ws(l[k]),
        run_len(l) < l.len() ==> is_ws(l[run_len(l) as int]),
        l.len() > 0 && !is_ws(l[0]) ==> run_len(l) >= 1,
    decreases l.len(),
{
    if l.len() == 0 || is_ws(l[0]) {
    } else {
        lemma_run_len(l.drop_first());
        assert forall|k: int| 0 <= k < run_len(l) implies !is_ws(l[k]) by {
            if k >= 1 {
                assert(l.drop_first()[k - 1] == l[k]);
            }
        }
        if run_len(l) < l.len() {
            assert(l.drop_first()[run_len(l) - 1] == l[run_len(l) as int]);
        }
    }
}

/// The whitespace-separated tokens of a line: its maximal runs of
/// non-whitespace bytes, in order.
pub open spec fn split_ws(l: Seq<u8>) -> Seq<Seq<u8>>
    decreases l.len(),
    via split_ws_decreases
{
    if l.len() == 0 {
        Seq::<Seq<u8>>::empty()
    } else if is_ws(l[0]) {
        split_ws(l.drop_first())
    } else {
        seq![l.subrange(0, run_len(l) as int)] + split_ws(
            l.subrange(run_len(l) as int, l.len() as int),
        )
    }
}

#[via_fn]
proof fn split_ws_decreases(l: Seq<u8>) {
    lemma_run_len(l);
}

/// Whether a registry line names keyboard hardware: it starts with the
/// handlers tag and mentions both the keyboard and the LED capability.
pub open spec fn line_selected(l: Seq<u8>) -> bool {
    l.len() > 0 && l[0] == HANDLERS_TAG && contains_pat(l, kbd_pat()) && contains_pat(
        l,
        leds_pat(),
    )
}

/// The device paths contributed by a token sequence: each token that starts
/// with `event`, appended to `/dev/input/`.
pub open spec fn paths_of_tokens(ts: Seq<Seq<u8>>) -> Seq<Seq<u8>>
    decreases ts.len(),
{
    if ts.len() == 0 {
        Seq::<Seq<u8>>::empty()
    } else if starts_with(ts[0], event_pat()) {
        seq![dev_input_prefix() + ts[0]] + paths_of_tokens(ts.drop_first())
    } else {
        paths_of_tokens(ts.drop_first())
    }
}

/// The device paths contributed by one line: its event tokens' paths if the
/// line names keyboard hardware, nothing otherwise.
pub open spec fn paths_of_line(l: Seq<u8>) -> Seq<Seq<u8>> {
    if line_selected(l) {
        paths_of_tokens(split_ws(l))
    } else {
        Seq::<Seq<u8>>::empty()
    }
}

/// The device paths contributed by a sequence of lines, in line order.
pub open spec fn paths_of_lines(ls: Seq<Seq<u8>>) -> Seq<Seq<u8>>
    decreases ls.len(),
{
    if ls.len() == 0 {
        Seq::<Seq<u8>>::empty()
    } else {
        paths_of_line(ls[0]) + paths_of_lines(ls.drop_first())
    }
}

/// Every keyboard event-node path the registry text names, in text order.
pub open spec fn registry_event_paths(s: Seq<u8>) -> Seq<Seq<u8>> {
    paths_of_lines(split_lines(s))
}

/// The views of a sequence of byte vectors.
pub open spec fn views_of(ps: Seq<Vec<u8>>) -> Seq<Seq<u8>> {
    ps.map_values(|p: Vec<u8>| p@)
}

fn is_ws_exec(b: u8) -> (r: bool)
    ensures
        r == is_ws(b),
{
    b == 32 || (9 <= b && b <= 13)
}

fn kbd_bytes() -> (p: Vec<u8>)
    ensures
        p@ == kbd_pat(),
{
    let mut p: Vec<u8> = Vec::new();
    p.push(107u8);
    p.push(98u8);
    p.push(100u8);
    proof {
        assert(p@ =~= kbd_pat());
    }
    p
}

fn leds_bytes() -> (p: Vec<u8>)
    ensures
        p@ == leds_pat(),
{
    let mut p: Vec<u8> = Vec::new();
    p.push(108u8);
    p.push(101u8);
    p.push(100u8);
    p.push(115u8);
    proof {
        assert(p@ =~= leds_pat());
    }
    p
}

fn event_bytes() -> (p: Vec<u8>)
    ensures
        p@ == event_pat(),
{
    let mut p: Vec<u8> = Vec::new();
    p.push(101u8);
    p.push(118u8);
    p.push(101u8);
    p.push(110u8);
    p.push(116u8);
    proof {
        assert(p@ =~= event_pat());
    }
    p
}

fn dev_input_bytes() -> (p: Vec<u8>)
    ensures
        p@ == dev_input_prefix(),
{
    let mut p: Vec<u8> = Vec::new();
    p.push(47u8);
    p.push(100u8);
    p.push(101u8);
    p.push(118u8);
    p.push(47u8);
    p.push(105u8);
    p.push(110u8);
    p.push(112u8);
    p.push(117u8);
    p.push(116u8);
    p.push(47u8);
    proof {
        assert(p@ =~= dev_input_prefix());
    }
    p
}

/// Whether pattern `p` stands in `s` at position `i`.
fn match_at(s: &[u8], i: usize, p: &[u8]) -> (r: bool)
    requires
        i + p@.len() <= s@.len(),
    ensures
        r == contains_at(s@, p@, i as int),
{
    let n: usize = s.len();
    let mut j: usize = 0;
    while j < p.len()
        invariant
            i + p@.len() <= s@.len(),
            n == s@.len(),
            j <= p@.len(),
            forall|k: int| 0 <= k < j ==> s@[i + k] == p@[k],
        decreases p@.len() - j,
    {
        if s[i + j] != p[j] {
            proof {
                assert(s@.subrange(i as int, i + p@.len())[j as int] == s@[i + j]);
            }
            return false;
        }
        j += 1;
    }
    proof {
        assert(s@.subrange(i as int, i + p@.len()) =~= p@);
    }
    true
}

/// Whether pattern `p` occurs anywhere in `s`.
fn contains_exec(s: &[u8], p: &[u8]) -> (r: bool)
    ensures
        r == contains_pat(s@, p@),
{
    if p.len() > s.len() {
        proof {
            assert(forall|i: int| !contains_at(s@, p@, i));
        }
        return false;
    }
    if p.len() == 0 {
        proof {
            assert(s@.subrange(0, 0) =~= p@);
            assert(contains_at(s@, p@, 0));
        }
        return true;
    }
    let mut i: usize = 0;
    while i <= s.len() - p.len()
        invariant
            1 <= p@.len() <= s@.len(),
            i <= s@.len() - p@.len() + 1,
            forall|k: int| 0 <= k < i ==> !contains_at(s@, p@, k),
        decreases s@.len() - i,
    {
        if match_at(s, i, p) {
            return true;
        }
        i += 1;
    }
    proof {
        assert(forall|k: int| !contains_at(s@, p@, k));
    }
    false
}

/// Whether `s` starts with pattern `p`.
fn starts_with_exec(s: &[u8], p: &[u8]) -> (r: bool)
    ensures
        r == starts_with(s@, p@),
{
    if p.len() > s.len() {
        return false;
    }
    match_at(s, 0, p)
}

/// The position of the first occurrence of `b` in `s` at or after `start`.
fn find_byte(s: &[u8], start: usize, b: u8) -> (r: Option<usize>)
    requires
        start <= s@.len(),
    ensures
        match r {
            Option::Some(i) => start <= i < s@.len() && s@[i as int] == b && find_first(
                s@.skip(start as int),
                b,
            ) == i - start,
            Option::None => find_first(s@.skip(start as int), b) < 0,
        },
{
    let ghost sk = s@.skip(start as int);
    proof {
        lemma_find_first(sk, b);
        assert(forall|k: int| 0 <= k < sk.len() ==> sk[k] == s@[start + k]);
    }
    let mut i: usize = start;
    while i < s.len()
        invariant
            start <= i <= s@.len(),
            sk == s@.skip(start as int),
            forall|k: int| start <= k < i ==> s@[k] != b,
        decreases s@.len() - i,
    {
        proof {
            assert(forall|k: int| 0 <= k < sk.len() ==> sk[k] == s@[start + k]);
        }
        if s[i] == b {
            proof {
                lemma_find_first(sk, b);
                assert(forall|k: int| 0 <= k < sk.len() ==> sk[k] == s@[start + k]);
                assert(sk[i - start] == b);
                let f = find_first(sk, b);
                if f < 0 {
                    assert(false);
                } else if f < i - start {
                    assert(sk[f] == s@[start + f]);
                    assert(false);
                } else if f > i - start {
                    assert(sk[i - start] != b);
                    assert(false);
                }
            }
            return Some(i);
        }
        i += 1;
    }
    proof {
        lemma_find_first(sk, b);
        assert(forall|k: int| 0 <= k < sk.len() ==> sk[k] == s@[start + k]);
        assert(forall|k: int| 0 <= k < sk.len() ==> sk[k] != b);
        if find_first(sk, b) >= 0 {
            assert(sk[find_first(sk, b)] == b);
            assert(false);
        }
    }
    None
}

/// The end of the token starting at `start`: the position of the next
/// whitespace byte, or the line end.
fn token_end(s: &[u8], start: usize) -> (e: usize)
    requires
        start <= s@.len(),
    ensures
        start <= e <= s@.len(),
        e - start == run_len(s@.skip(start as int)),
{
    let ghost sk = s@.skip(start as int);
    proof {
        lemma_run_len(sk);
        assert(forall|k: int| 0 <= k < sk.len() ==> sk[k] == s@[start + k]);
    }
    let mut e: usize = start;
    while e < s.len() && !is_ws_exec(s[e])
        invariant
            start <= e <= s@.len(),
            sk == s@.skip(start as int),
            forall|k: int| start <= k < e ==> !is_ws(s@[k]),
        decreases s@.len() - e,
    {
        e += 1;
    }
    proof {
        if e < s@.len() {
            assert(is_ws(sk[e - start]));
        }
        assert(forall|k: int| 0 <= k < e - start ==> !is_ws(sk[k]));
    }
    e
}

/// A copy of the bytes of `s` from `a` to `b`.
fn copy_range(s: &[u8], a: usize, b: usize) -> (r: Vec<u8>)
    requires
        a <= b <= s@.len(),
    ensures
        r@ == s@.subrange(a as int, b as int),
{
    let mut r: Vec<u8> = Vec::new();
    let mut j: usize = a;
    while j < b
        invariant
            a <= j <= b <= s@.len(),
            r@ == s@.subrange(a as int, j as int),
        decreases b - j,
    {
        r.push(s[j]);
        proof {
            assert(s@.subrange(a as int, j + 1) =~= s@.subrange(a as int, j as int).push(
                s@[j as int],
            ));
        }
        j += 1;
    }
    r
}

/// The device path of one event token: the token appended to `/dev/input/`.
fn make_path(tok: &Vec<u8>) -> (p: Vec<u8>)
    ensures
        p@ == dev_input_prefix() + tok@,
{
    let mut p = dev_input_bytes();
    let mut j: usize = 0;
    while j < tok.len()
        invariant
            j <= tok@.len(),
            p@ == dev_input_prefix() + tok@.take(j as int),
        decreases tok@.len() - j,
    {
        p.push(tok[j]);
        proof {
            assert(dev_input_prefix() + tok@.take(j + 1) =~= (dev_input_prefix() + tok@.take(
                j as int,
            )).push(tok@[j as int]));
        }
        j += 1;
    }
    proof {
        assert(tok@.take(tok@.len() as int) =~= tok@);
    }
    p
}

/// Whether a registry line names keyboard hardware.
fn line_selected_exec(l: &[u8]) -> (r: bool)
    ensures
        r == line_selected(l@),
{
    if l.len() == 0 {
        return false;
    }
    if l[0] != HANDLERS_TAG {
        return false;
    }
    let kbd = kbd_bytes();
    let leds = leds_bytes();
    contains_exec(l, kbd.as_slice()) && contains_exec(l, leds.as_slice())
}

/// The device paths contributed by one registry line.
fn paths_of_line_exec(l: &[u8]) -> (out: Vec<Vec<u8>>)
    ensures
        views_of(out@) == paths_of_line(l@),
{
    let mut out: Vec<Vec<u8>> = Vec::new();
    if !line_selected_exec(l) {
        proof {
            assert(views_of(out@) =~= paths_of_line(l@));
        }
        return out;
    }
    let event = event_bytes();
    let mut t: usize = 0;
    proof {
        assert(l@.skip(0) =~= l@);
        assert(views_of(out@) =~= Seq::<Seq<u8>>::empty());
        assert(Seq::<Seq<u8>>::empty() + paths_of_tokens(split_ws(l@)) =~= paths_of_tokens(
            split_ws(l@),
        ));
    }
    while t < l.len()
        invariant
            t <= l@.len(),
            line_selected(l@),
            event@ == event_pat(),
            views_of(out@) + paths_of_tokens(split_ws(l@.skip(t as int))) == paths_of_tokens(
                split_ws(l@),
            ),
        decreases l@.len() - t,
    {
        let ghost sk = l@.skip(t as int);
        proof {
            assert(sk[0] == l@[t as int]);
        }
        if is_ws_exec(l[t]) {
            proof {
                assert(sk.drop_first() =~= l@.skip(t + 1));
            }
            t += 1;
        } else {
            let e: usize = token_end(l, t);
            proof {
                lemma_run_len(sk);
                assert(sk.subrange(0, run_len(sk) as int) =~= l@.subrange(t as int, e as int));
                assert(sk.subrange(run_len(sk) as int, sk.len() as int) =~= l@.skip(e as int));
                assert(split_ws(sk) == seq![l@.subrange(t as int, e as int)] + split_ws(
                    l@.skip(e as int),
                ));
            }
            let tok = copy_range(l, t, e);
            let ghost rest = split_ws(l@.skip(e as int));
            proof {
                assert((seq![tok@] + rest)[0] == tok@);
                assert((seq![tok@] + rest).drop_first() =~= rest);
            }
            if starts_with_exec(tok.as_slice(), event.as_slice()) {
                let path = make_path(&tok);
                proof {
                    assert(paths_of_tokens(split_ws(sk)) == seq![dev_input_prefix() + tok@]
                        + paths_of_tokens(rest));
                    assert(views_of(out@.push(path)) =~= views_of(out@) + seq![path@]);
                    assert(views_of(out@) + (seq![path@] + paths_of_tokens(rest)) =~= (views_of(
                        out@,
                    ) + seq![path@]) + paths_of_tokens(rest));
                }
                out.push(path);
            } else {
                proof {
                    assert(paths_of_tokens(split_ws(sk)) == paths_of_tokens(rest));
                }
            }
            t = e;
        }
    }
    proof {
        assert(l@.skip(l@.len() as int) =~= Seq::<u8>::empty());
        assert(paths_of_tokens(split_ws(Seq::<u8>::empty())) =~= Seq::<Seq<u8>>::empty());
        assert(views_of(out@) + Seq::<Seq<u8>>::empty() =~= views_of(out@));
    }
    out
}

/// Select every keyboard event-node path out of the registry text: for each
/// line that starts with the handlers tag and mentions both the `kbd` and the
/// `leds` capability, each whitespace-separated token starting with `event`,
/// appended to `/dev/input/`.
#[verifier::rlimit(100)]
pub fn kbd_event_nodes(content: &[u8]) -> (paths: Vec<Vec<u8>>)
    ensures
        views_of(paths@) == registry_event_paths(content@),
{
    let mut out: Vec<Vec<u8>> = Vec::new();
    let mut pos: usize = 0;
    proof {
        assert(content@.skip(0) =~= content@);
        assert(views_of(out@) + registry_event_paths(content@) =~= registry_event_paths(
            content@,
        ));
    }
    while pos < content.len()
        invariant
            pos <= content@.len(),
            views_of(out@) + paths_of_lines(split_lines(content@.skip(pos as int)))
                == registry_event_paths(content@),
        decreases content@.len() - pos,
    {
        let ghost sk = content@.skip(pos as int);
        let nl = find_byte(content, pos, LINE_FEED);
        let (line_end, next): (usize, usize) = match nl {
            Some(i) => (i, i + 1),
            None => (content.len(), content.len()),
        };
        let mut lend: usize = line_end;
        if lend > pos && content[lend - 1] == CARRIAGE_RETURN {
            lend -= 1;
        }
        let line = copy_range(content, pos, lend);
        let ghost raw = if find_first(sk, LINE_FEED) < 0 {
            sk
        } else {
            sk.subrange(0, find_first(sk, LINE_FEED))
        };
        proof {
            assert(forall|k: int| 0 <= k < sk.len() ==> sk[k] == content@[pos + k]);
            assert(raw =~= content@.subrange(pos as int, line_end as int));
            if raw.len() > 0 && raw.last() == CARRIAGE_RETURN {
                assert(raw.drop_last() =~= content@.subrange(pos as int, line_end - 1));
                assert(line@ == strip_cr(raw));
            } else {
                assert(line@ == strip_cr(raw));
            }
            let rest_lines = split_lines(content@.skip(next as int));
            if find_first(sk, LINE_FEED) < 0 {
                assert(content@.skip(next as int) =~= Seq::<u8>::empty());
                assert(split_lines(sk) == seq![strip_cr(sk)]);
                assert(rest_lines =~= Seq::<Seq<u8>>::empty());
                assert(split_lines(sk) == seq![line@] + rest_lines);
            } else {
                assert(sk.subrange(find_first(sk, LINE_FEED) + 1, sk.len() as int)
                    =~= content@.skip(next as int));
                assert(split_lines(sk) == seq![line@] + rest_lines);
            }
            assert((seq![line@] + rest_lines)[0] == line@);
            assert((seq![line@] + rest_lines).drop_first() =~= rest_lines);
            assert(paths_of_lines(split_lines(sk)) == paths_of_line(line@) + paths_of_lines(
                rest_lines,
            ));
        }
        let mut lp = paths_of_line_exec(line.as_slice());
        proof {
            let ghost a = views_of(out@);
            let ghost b = views_of(lp@);
            let ghost c = paths_of_lines(split_lines(content@.skip(next as int)));
            assert(views_of(out@ + lp@) =~= a + b);
            assert(a + (b + c) =~= (a + b) + c);
        }
        out.append(&mut lp);
        pos = next;
    }
    proof {
        assert(content@.skip(content@.len() as int) =~= Seq::<u8>::empty());
        assert(paths_of_lines(split_lines(Seq::<u8>::empty())) =~= Seq::<Seq<u8>>::empty());
        assert(views_of(out@) + Seq::<Seq<u8>>::empty() =~= views_of(out@));
    }
    out
}

} // verus!
