use vstd::prelude::*;

verus! {

/// A decimal digit.
pub open spec fn is_digit(c: char) -> bool {
    '0' <= c && c <= '9'
}

/// A character that may stand in a namespace on the wire.
pub open spec fn is_ns_char(c: char) -> bool {
    c != ',' && c != '{' && c != '[' && !is_digit(c)
}

/// The end of the run of digits of `s` that starts at `i`.
pub open spec fn digit_run_end(s: Seq<char>, i: int) -> int
    decreases s.len() - i,
{
    if 0 <= i < s.len() && is_digit(s[i]) {
        digit_run_end(s, i + 1)
    } else {
        i
    }
}

/// The end of the run of namespace characters of `s` that starts at `i`.
pub open spec fn ns_run_end(s: Seq<char>, i: int) -> int
    decreases s.len() - i,
{
    if 0 <= i < s.len() && is_ns_char(s[i]) {
        ns_run_end(s, i + 1)
    } else {
        i
    }
}

/// The parts of a text frame `<type>[<count>-][<namespace>,][<ack id>]<payload>`:
/// the type character, the namespace (with a leading `/`), and the payload text.
/// Digits right after the type form a count only when a `-` follows them, which is
/// then skipped; otherwise they are the ack id. A `,` after a namespace is skipped.
pub open spec fn frame_parts(s: Seq<char>) -> Option<(char, Seq<char>, Seq<char>)> {
    if s.len() == 0 {
        None
    } else {
        let a = digit_run_end(s, 1);
        let after_count = if a > 1 && a < s.len() && s[a] == '-' { a + 1 } else { 1 };
        let q = ns_run_end(s, after_count);
        let raw = s.subrange(after_count, q);
        let after_ns = if raw.len() > 0 && q < s.len() && s[q] == ',' { q + 1 } else { q };
        let ns = if raw.len() > 0 && raw[0] == '/' { raw } else { seq!['/'] + raw };
        let body_start = digit_run_end(s, after_ns);
        Some((s[0], ns, s.subrange(body_start, s.len() as int)))
    }
}

/// The text frame of a packet of type `index`: the namespace is written, followed by
/// `,`, unless it is empty or `/`.
pub open spec fn frame_text(index: u8, ns: Seq<char>, body: Seq<char>) -> Seq<char> {
    seq![digit_char(index)] + (if ns.len() > 0 && ns != seq!['/'] { ns + seq![','] } else { Seq::empty() })
        + body
}

/// The decimal digit for `d < 10`.
pub open spec fn digit_char(d: u8) -> char {
    (d + '0' as u8) as char
}

/// The parts of a decoded frame.
pub struct Frame {
    pub kind: char,
    pub ns: Vec<char>,
    pub body: Vec<char>,
}

fn is_digit_exec(c: char) -> (r: bool)
    ensures
        r == is_digit(c),
{
    '0' <= c && c <= '9'
}

fn is_ns_char_exec(c: char) -> (r: bool)
    ensures
        r == is_ns_char(c),
{
    c != ',' && c != '{' && c != '[' && !is_digit_exec(c)
}

/// The end of the run of digits that starts at `i`.
fn skip_digits(s: &Vec<char>, i: usize) -> (r: usize)
    requires
        i <= s@.len(),
    ensures
        r == digit_run_end(s@, i as int),
        i <= r <= s@.len(),
        forall|k: int| i <= k < r ==> is_digit(#[trigger] s@[k]),
{
    let mut j = i;
    while j < s.len() && is_digit_exec(s[j])
        invariant
            i <= j <= s@.len(),
            digit_run_end(s@, j as int) == digit_run_end(s@, i as int),
            forall|k: int| i <= k < j ==> is_digit(#[trigger] s@[k]),
        decreases s@.len() - j,
    {
        j = j + 1;
    }
    j
}

/// The end of the run of namespace characters that starts at `i`.
fn skip_ns(s: &Vec<char>, i: usize) -> (r: usize)
    requires
        i <= s@.len(),
    ensures
        r == ns_run_end(s@, i as int),
        i <= r <= s@.len(),
{
    let mut j = i;
    while j < s.len() && is_ns_char_exec(s[j])
        invariant
            i <= j <= s@.len(),
            ns_run_end(s@, j as int) == ns_run_end(s@, i as int),
        decreases s@.len() - j,
    {
        j = j + 1;
    }
    j
}

/// Splits a text frame into its type character, namespace and payload text.
pub fn decode_frame(s: &Vec<char>) -> (r: Option<Frame>)
    ensures
        match frame_parts(s@) {
            None => r is None,
            Some(parts) => r is Some && r->Some_0.kind == parts.0 && r->Some_0.ns@ == parts.1
                && r->Some_0.body@ == parts.2,
        },
{
    if s.len() == 0 {
        return None;
    }
    let kind = s[0];
    let a = skip_digits(s, 1);
    let mut ns_start: usize = 1;
    if a > 1 && a < s.len() && s[a] == '-' {
        ns_start = a + 1;
    }
    let q = skip_ns(s, ns_start);
    let mut after_ns = q;
    if q > ns_start && q < s.len() && s[q] == ',' {
        after_ns = q + 1;
    }
    let mut ns: Vec<char> = Vec::new();
    if !(q > ns_start && s[ns_start] == '/') {
        ns.push('/');
    }
    let mut k = ns_start;
    let ghost start = ns@;
    while k < q
        invariant
            ns_start <= k <= q <= s@.len(),
            ns@ == start + s@.subrange(ns_start as int, k as int),
        decreases q - k,
    {
        ns.push(s[k]);
        proof {
            assert(s@.subrange(ns_start as int, k + 1) == s@.subrange(ns_start as int, k as int).push(s@[k as int]));
        }
        k = k + 1;
    }
    let body_start = skip_digits(s, after_ns);
    let mut body: Vec<char> = Vec::new();
    let mut k = body_start;
    while k < s.len()
        invariant
            body_start <= k <= s@.len(),
            body@ == s@.subrange(body_start as int, k as int),
        decreases s@.len() - k,
    {
        body.push(s[k]);
        proof {
            assert(s@.subrange(body_start as int, k + 1) == s@.subrange(body_start as int, k as int).push(s@[k as int]));
        }
        k = k + 1;
    }
    proof {
        assert(ns@ =~= frame_parts(s@)->Some_0.1);
    }
    Some(Frame { kind, ns, body })
}


/// Writes a text frame: the type digit, the namespace followed by `,` unless it is
/// empty or `/`, then the payload text.
pub fn encode_frame(index: u8, ns: &Vec<char>, body: &Vec<char>) -> (r: Vec<char>)
    requires
        index < 10,
    ensures
        r@ == frame_text(index, ns@, body@),
{
    let mut r: Vec<char> = Vec::new();
    r.push(((index + 48u8) as char));
    let slash = ns.len() == 1 && ns[0] == '/';
    let write_ns = ns.len() > 0 && !slash;
    proof {
        if ns@.len() > 0 {
            assert(slash == (ns@ == seq!['/'])) by {
                if ns@ == seq!['/'] {
                    assert(ns@[0] == '/');
                }
                if slash {
                    assert(ns@ =~= seq!['/']);
                }
            }
        }
    }
    if write_ns {
        let mut k: usize = 0;
        while k < ns.len()
            invariant
                k <= ns@.len(),
                r@ == seq![digit_char(index)] + ns@.take(k as int),
            decreases ns@.len() - k,
        {
            r.push(ns[k]);
            proof {
                assert(ns@.take(k + 1) == ns@.take(k as int).push(ns@[k as int]));
            }
            k = k + 1;
        }
        r.push(',');
        proof {
            assert(ns@.take(k as int) == ns@);
        }
    }
    let ghost head = r@;
    let mut k: usize = 0;
    while k < body.len()
        invariant
            k <= body@.len(),
            r@ == head + body@.take(k as int),
        decreases body@.len() - k,
    {
        r.push(body[k]);
        proof {
            assert(body@.take(k + 1) == body@.take(k as int).push(body@[k as int]));
        }
        k = k + 1;
    }
    proof {
        assert(body@.take(k as int) == body@);
        assert(r@ =~= frame_text(index, ns@, body@));
    }
    r
}

proof fn lemma_ns_run(s: Seq<char>, i: int, j: int)
    requires
        0 <= i <= j <= s.len(),
        forall|k: int| i <= k < j ==> is_ns_char(#[trigger] s[k]),
        j == s.len() || !is_ns_char(s[j]),
    ensures
        ns_run_end(s, i) == j,
    decreases j - i,
{
    if i < j {
        lemma_ns_run(s, i + 1, j);
    }
}

/// Decoding the frame of a namespace that starts with `/` and holds no `,`, `{`, `[`
/// or digit, with a payload that is empty or starts with `[` or `{`, gives back the
/// type digit, the namespace (`/` for an empty one) and the payload.
pub proof fn frame_round_trip(index: u8, ns: Seq<char>, body: Seq<char>)
    requires
        index < 10,
        ns.len() == 0 || ns[0] == '/',
        forall|k: int| 0 <= k < ns.len() ==> is_ns_char(#[trigger] ns[k]),
        body.len() == 0 || body[0] == '[' || body[0] == '{',
    ensures
        frame_parts(frame_text(index, ns, body)) == Some(
            (digit_char(index), if ns.len() == 0 { seq!['/'] } else { ns }, body),
        ),
{
    let s = frame_text(index, ns, body);
    let written = ns.len() > 0 && ns != seq!['/'];
    assert(digit_run_end(s, 1) == 1);
    assert(s.subrange(1, 1) =~= Seq::<char>::empty());
    if written {
        let q: int = 1 + ns.len() as int;
        assert forall|k: int| 1 <= k < q implies is_ns_char(#[trigger] s[k]) by {
            assert(s[k] == ns[k - 1]);
        }
        assert(s[q] == ',');
        lemma_ns_run(s, 1, q);
        assert(s.subrange(1, q) =~= ns);
        assert(digit_run_end(s, q + 1) == q + 1);
        assert(s.subrange(q + 1, s.len() as int) =~= body);
    } else {
        assert(s =~= seq![digit_char(index)] + body);
        lemma_ns_run(s, 1, 1);
        assert(s.subrange(1, 1) =~= Seq::<char>::empty());
        assert(seq!['/'] + Seq::<char>::empty() =~= seq!['/']);
        assert(s.subrange(1, s.len() as int) =~= body);
    }
}

} // verus!
