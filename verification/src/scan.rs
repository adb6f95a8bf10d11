//! Scanning ASCII text held as bytes: searching, splitting into fields and
//! reading unsigned numbers in a radix, the way `str::contains`,
//! `str::split_whitespace` and `u32::from_str_radix` read ASCII text.
use vstd::prelude::*;

verus! {

/// `needle` occurs in `hay` at position `i`.
pub open spec fn occurs_at(hay: Seq<u8>, needle: Seq<u8>, i: int) -> bool {
    0 <= i && i + needle.len() <= hay.len() && hay.subrange(i, i + needle.len()) == needle
}

/// `needle` occurs somewhere in `hay`.
pub open spec fn contains_seq(hay: Seq<u8>, needle: Seq<u8>) -> bool {
    exists|i: int| occurs_at(hay, needle, i)
}

fn matches_at(hay: &[u8], needle: &[u8], i: usize) -> (r: bool)
    requires
        i + needle@.len() <= hay@.len(),
    ensures
        r == occurs_at(hay@, needle@, i as int),
{
    let mut k: usize = 0;
    let hl = hay.len();
    while k < needle.len()
        invariant
            hl == hay@.len(),
            k <= needle@.len(),
            i + needle@.len() <= hay@.len(),
            forall|j: int| 0 <= j < k ==> hay@[i + j] == needle@[j],
        decreases needle@.len() - k,
    {
        if hay[i + k] != needle[k] {
            proof {
                let sub = hay@.subrange(i as int, i + needle@.len());
                assert(sub[k as int] != needle@[k as int]);
            }
            return false;
        }
        k = k + 1;
    }
    assert(hay@.subrange(i as int, i + needle@.len()) =~= needle@);
    true
}

/// Whether `needle` occurs in `hay`; an empty needle occurs everywhere.
pub fn contains_bytes(hay: &[u8], needle: &[u8]) -> (r: bool)
    ensures
        r == contains_seq(hay@, needle@),
{
    if needle.len() > hay.len() {
        proof {
            assert forall|i: int| !occurs_at(hay@, needle@, i) by {}
        }
        return false;
    }
    let last = hay.len() - needle.len();
    let mut i: usize = 0;
    while i <= last
        invariant
            last + needle@.len() == hay@.len(),
            forall|j: int| 0 <= j < i ==> !occurs_at(hay@, needle@, j),
        decreases last + 1 - i,
    {
        if matches_at(hay, needle, i) {
            return true;
        }
        if i == last {
            proof {
                assert forall|j: int| !occurs_at(hay@, needle@, j) by {
                    if 0 <= j <= last {
                        assert(j < i || j == i);
                    }
                }
            }
            return false;
        }
        i = i + 1;
    }
    false
}

/// The ASCII whitespace bytes: tab, line feed, vertical tab, form feed,
/// carriage return and space.
pub open spec fn is_space(b: u8) -> bool {
    (9 <= b && b <= 13) || b == 32
}

/// The value of a digit in a radix up to 16, if it is one.
pub open spec fn digit_value(b: u8, radix: u32) -> Option<nat> {
    let v: int = if 48 <= b <= 57 {
        b - 48
    } else if 97 <= b <= 102 {
        b - 87
    } else if 65 <= b <= 70 {
        b - 55
    } else {
        99
    };
    if v < radix {
        Some(v as nat)
    } else {
        None
    }
}

/// Every byte is a digit in the radix.
pub open spec fn all_digits(s: Seq<u8>, radix: u32) -> bool {
    forall|i: int| 0 <= i < s.len() ==> #[trigger] digit_value(s[i], radix) is Some
}

/// The number a string of digits denotes.
pub open spec fn digits_value(s: Seq<u8>, radix: u32) -> nat
    decreases s.len(),
{
    if s.len() == 0 {
        0
    } else {
        digits_value(s.drop_last(), radix) * (radix as nat) + digit_value(s.last(), radix).unwrap_or(0)
    }
}

/// The digits after an optional leading `+`.
pub open spec fn unsigned_body(s: Seq<u8>) -> Seq<u8> {
    if s.len() > 0 && s[0] == 43 {
        s.drop_first()
    } else {
        s
    }
}

/// How `u32::from_str_radix` reads ASCII text: an optional `+`, then one or
/// more digits of the radix, denoting a value that fits in a `u32`.
pub open spec fn parse_u32_spec(s: Seq<u8>, radix: u32) -> Option<u32> {
    let body = unsigned_body(s);
    if body.len() > 0 && all_digits(body, radix) && digits_value(body, radix) <= u32::MAX {
        Some(digits_value(body, radix) as u32)
    } else {
        None
    }
}

/// Appending digits never makes a value smaller.
pub proof fn lemma_digits_value_grows(s: Seq<u8>, radix: u32, j: int, k: int)
    requires
        radix >= 1,
        0 <= j <= k <= s.len(),
    ensures
        digits_value(s.subrange(0, j), radix) <= digits_value(s.subrange(0, k), radix),
    decreases k - j,
{
    if j < k {
        lemma_digits_value_grows(s, radix, j, k - 1);
        let p = s.subrange(0, k);
        assert(p.drop_last() =~= s.subrange(0, k - 1));
        let v = digits_value(s.subrange(0, k - 1), radix);
        assert(v * radix >= v) by (nonlinear_arith)
            requires
                radix >= 1,
                v >= 0,
        ;
    }
}

fn digit_of(b: u8, radix: u32) -> (r: Option<u32>)
    requires
        radix <= 16,
    ensures
        r matches Some(v) ==> digit_value(b, radix) == Some(v as nat),
        r is None ==> digit_value(b, radix) is None,
{
    let v: u32 = if 48 <= b && b <= 57 {
        (b - 48) as u32
    } else if 97 <= b && b <= 102 {
        (b - 87) as u32
    } else if 65 <= b && b <= 70 {
        (b - 55) as u32
    } else {
        99
    };
    if v < radix {
        Some(v)
    } else {
        None
    }
}

/// Read an unsigned number in radix 2 to 16 as `u32::from_str_radix` does.
pub fn parse_u32_radix(s: &[u8], radix: u32) -> (r: Option<u32>)
    requires
        2 <= radix <= 16,
    ensures
        r == parse_u32_spec(s@, radix),
{
    let start: usize = if s.len() > 0 && s[0] == 43 { 1 } else { 0 };
    let ghost body = unsigned_body(s@);
    proof {
        assert(body =~= s@.subrange(start as int, s@.len() as int));
    }
    if start == s.len() {
        return None;
    }
    let mut acc: u32 = 0;
    let mut i: usize = start;
    proof {
        assert(body.subrange(0, 0) =~= Seq::<u8>::empty());
    }
    while i < s.len()
        invariant
            start <= i <= s@.len(),
            2 <= radix <= 16,
            body == s@.subrange(start as int, s@.len() as int),
            body == unsigned_body(s@),
            all_digits(body.subrange(0, i - start), radix),
            acc == digits_value(body.subrange(0, i - start), radix),
        decreases s@.len() - i,
    {
        let ghost k = i - start;
        let d = match digit_of(s[i], radix) {
            Some(d) => d,
            None => {
                proof {
                    assert(body[k] == s@[i as int]);
                    assert(!(digit_value(body[k], radix) is Some));
                }
                return None;
            },
        };
        proof {
            let next = body.subrange(0, k + 1);
            assert(next.drop_last() =~= body.subrange(0, k));
            assert(next.last() == s@[i as int]);
            assert forall|j: int| 0 <= j < next.len() implies #[trigger] digit_value(next[j], radix) is Some by {
                if j < k {
                    assert(next[j] == body.subrange(0, k)[j]);
                }
            }
        }
        let m = match acc.checked_mul(radix) {
            Some(m) => m,
            None => {
                proof {
                    lemma_no_fit(body, radix, k + 1, u32::MAX as nat);
                }
                return None;
            },
        };
        let v = match m.checked_add(d) {
            Some(v) => v,
            None => {
                proof {
                    let next = body.subrange(0, k + 1);
                    assert(digits_value(next, radix) == acc * (radix as nat) + d);
                    lemma_no_fit(body, radix, k + 1, u32::MAX as nat);
                }
                return None;
            },
        };
        acc = v;
        i = i + 1;
    }
    proof {
        assert(body.subrange(0, body.len() as int) =~= body);
    }
    Some(acc)
}

/// How `str::parse::<u64>` reads ASCII text: an optional `+`, then one or
/// more decimal digits denoting a value that fits in a `u64`.
pub open spec fn parse_u64_spec(s: Seq<u8>) -> Option<u64> {
    let body = unsigned_body(s);
    if body.len() > 0 && all_digits(body, 10) && digits_value(body, 10) <= u64::MAX {
        Some(digits_value(body, 10) as u64)
    } else {
        None
    }
}

/// Read a decimal `u64` as `str::parse::<u64>` does.
pub fn parse_u64_decimal(s: &[u8]) -> (r: Option<u64>)
    ensures
        r == parse_u64_spec(s@),
{
    let start: usize = if s.len() > 0 && s[0] == 43 { 1 } else { 0 };
    let ghost body = unsigned_body(s@);
    proof {
        assert(body =~= s@.subrange(start as int, s@.len() as int));
    }
    if start == s.len() {
        return None;
    }
    let mut acc: u64 = 0;
    let mut i: usize = start;
    proof {
        assert(body.subrange(0, 0) =~= Seq::<u8>::empty());
    }
    while i < s.len()
        invariant
            start <= i <= s@.len(),
            body == s@.subrange(start as int, s@.len() as int),
            body == unsigned_body(s@),
            all_digits(body.subrange(0, i - start), 10),
            acc == digits_value(body.subrange(0, i - start), 10),
        decreases s@.len() - i,
    {
        let ghost k = i - start;
        let d = match digit_of(s[i], 10) {
            Some(d) => d,
            None => {
                proof {
                    assert(body[k] == s@[i as int]);
                    assert(!(digit_value(body[k], 10) is Some));
                }
                return None;
            },
        };
        proof {
            let next = body.subrange(0, k + 1);
            assert(next.drop_last() =~= body.subrange(0, k));
            assert(next.last() == s@[i as int]);
            assert forall|j: int| 0 <= j < next.len() implies #[trigger] digit_value(next[j], 10) is Some by {
                if j < k {
                    assert(next[j] == body.subrange(0, k)[j]);
                }
            }
        }
        let m = match acc.checked_mul(10) {
            Some(m) => m,
            None => {
                proof {
                    lemma_no_fit(body, 10, k + 1, u64::MAX as nat);
                }
                return None;
            },
        };
        let v = match m.checked_add(d as u64) {
            Some(v) => v,
            None => {
                proof {
                    let next = body.subrange(0, k + 1);
                    assert(digits_value(next, 10) == acc * 10 + d);
                    lemma_no_fit(body, 10, k + 1, u64::MAX as nat);
                }
                return None;
            },
        };
        acc = v;
        i = i + 1;
    }
    proof {
        assert(body.subrange(0, body.len() as int) =~= body);
    }
    Some(acc)
}

/// Once a prefix of digits denotes more than `u32::MAX`, the whole string
/// does not parse.
proof fn lemma_no_fit(body: Seq<u8>, radix: u32, k: int, bound: nat)
    requires
        radix >= 2,
        0 < k <= body.len(),
        all_digits(body.subrange(0, k), radix),
        digits_value(body.subrange(0, k), radix) > bound,
    ensures
        !(all_digits(body, radix) && digits_value(body, radix) <= bound),
{
    if all_digits(body, radix) {
        lemma_digits_value_grows(body, radix, k, body.len() as int);
        assert(body.subrange(0, body.len() as int) =~= body);
    }
}

/// A copy of `len` bytes of `data` from `offset` on.
pub fn copy_range(data: &[u8], offset: usize, len: usize) -> (r: Vec<u8>)
    requires
        offset + len <= data@.len(),
    ensures
        r@ == data@.subrange(offset as int, offset + len),
{
    let mut out: Vec<u8> = Vec::with_capacity(len);
    let mut i: usize = 0;
    let n = data.len();
    while i < len
        invariant
            i <= len,
            n == data@.len(),
            offset + len <= data@.len(),
            out@ == data@.subrange(offset as int, offset + i),
        decreases len - i,
    {
        out.push(data[offset + i]);
        i = i + 1;
        proof {
            assert(out@ =~= data@.subrange(offset as int, offset + i));
        }
    }
    out
}

/// Two digits of radix 16 never exceed `0xff`.
pub proof fn lemma_pair_fits(p: Seq<u8>)
    requires
        p.len() == 2,
        parse_u32_spec(p, 16) is Some,
    ensures
        parse_u32_spec(p, 16).unwrap() <= 0xff,
{
    let body = unsigned_body(p);
    assert(body.len() <= 2);
    reveal_with_fuel(digits_value, 3);
    if body.len() == 2 {
        assert(body.drop_last().drop_last().len() == 0);
        assert(digit_value(body[0], 16).unwrap_or(0) < 16);
        assert(digit_value(body[1], 16).unwrap_or(0) < 16);
        assert(body.drop_last().last() == body[0]);
    } else if body.len() == 1 {
        assert(body.drop_last().len() == 0);
        assert(digit_value(body[0], 16).unwrap_or(0) < 16);
    }
}

/// The pieces of `s` between occurrences of `sep`, as `split` yields them:
/// an empty text is one empty piece.
pub open spec fn split_pieces(s: Seq<u8>, sep: u8) -> Seq<Seq<u8>>
    decreases s.len(),
{
    if s.len() == 0 {
        seq![Seq::<u8>::empty()]
    } else {
        let p = split_pieces(s.drop_last(), sep);
        if s.last() == sep {
            p.push(Seq::<u8>::empty())
        } else {
            p.update(p.len() - 1, p.last().push(s.last()))
        }
    }
}

/// There is always at least one piece.
pub proof fn lemma_split_pieces_nonempty(s: Seq<u8>, sep: u8)
    ensures
        split_pieces(s, sep).len() >= 1,
    decreases s.len(),
{
    if s.len() > 0 {
        lemma_split_pieces_nonempty(s.drop_last(), sep);
    }
}

/// The fields of `s`: its maximal runs of bytes that are not ASCII
/// whitespace, in order.
pub open spec fn fields(s: Seq<u8>) -> Seq<Seq<u8>>
    decreases s.len(),
{
    if s.len() == 0 {
        Seq::empty()
    } else if is_space(s.last()) {
        fields(s.drop_last())
    } else if s.len() >= 2 && !is_space(s[s.len() - 2]) {
        let f = fields(s.drop_last());
        f.update(f.len() - 1, f.last().push(s.last()))
    } else {
        fields(s.drop_last()).push(seq![s.last()])
    }
}

/// A text ending in a non-space byte has a field.
pub proof fn lemma_fields_nonempty(s: Seq<u8>)
    requires
        s.len() > 0,
        !is_space(s.last()),
    ensures
        fields(s).len() >= 1,
    decreases s.len(),
{
    if s.len() >= 2 && !is_space(s[s.len() - 2]) {
        assert(s.drop_last().last() == s[s.len() - 2]);
        lemma_fields_nonempty(s.drop_last());
    }
}

/// Split bytes into the pieces between occurrences of `sep`.
pub fn split_bytes(s: &[u8], sep: u8) -> (r: Vec<Vec<u8>>)
    ensures
        r@.map_values(|v: Vec<u8>| v@) == split_pieces(s@, sep),
{
    let mut pieces: Vec<Vec<u8>> = Vec::new();
    let mut cur: Vec<u8> = Vec::new();
    let mut i: usize = 0;
    proof {
        assert(s@.subrange(0, 0) =~= Seq::<u8>::empty());
    }
    while i < s.len()
        invariant
            i <= s@.len(),
            pieces@.map_values(|v: Vec<u8>| v@).push(cur@) == split_pieces(s@.subrange(0, i as int), sep),
        decreases s@.len() - i,
    {
        let ghost before = pieces@.map_values(|v: Vec<u8>| v@).push(cur@);
        let b = s[i];
        proof {
            let t = s@.subrange(0, i + 1);
            assert(t.drop_last() =~= s@.subrange(0, i as int));
            assert(t.last() == b);
        }
        if b == sep {
            let done = cur;
            pieces.push(done);
            cur = Vec::new();
            proof {
                assert(pieces@.map_values(|v: Vec<u8>| v@).push(cur@) =~= before.push(
                    Seq::<u8>::empty(),
                ));
            }
        } else {
            cur.push(b);
            proof {
                assert(pieces@.map_values(|v: Vec<u8>| v@).push(cur@) =~= before.update(
                    before.len() - 1,
                    before.last().push(b),
                ));
            }
        }
        i = i + 1;
    }
    pieces.push(cur);
    proof {
        assert(s@.subrange(0, s@.len() as int) =~= s@);
    }
    pieces
}

/// Split bytes into their fields, as `split_whitespace` splits ASCII text.
pub fn split_fields(s: &[u8]) -> (r: Vec<Vec<u8>>)
    ensures
        r@.map_values(|v: Vec<u8>| v@) == fields(s@),
{
    let mut done: Vec<Vec<u8>> = Vec::new();
    let mut cur: Vec<u8> = Vec::new();
    let mut i: usize = 0;
    proof {
        assert(s@.subrange(0, 0) =~= Seq::<u8>::empty());
    }
    while i < s.len()
        invariant
            i <= s@.len(),
            cur@.len() == 0 ==> done@.map_values(|v: Vec<u8>| v@) == fields(s@.subrange(0, i as int)),
            cur@.len() == 0 ==> (i == 0 || is_space(s@[i - 1])),
            cur@.len() > 0 ==> i > 0 && !is_space(s@[i - 1]),
            cur@.len() > 0 ==> done@.map_values(|v: Vec<u8>| v@).push(cur@) == fields(
                s@.subrange(0, i as int),
            ),
        decreases s@.len() - i,
    {
        let b = s[i];
        let ghost old_done = done@.map_values(|v: Vec<u8>| v@);
        let ghost old_cur = cur@;
        proof {
            let t = s@.subrange(0, i + 1);
            assert(t.drop_last() =~= s@.subrange(0, i as int));
            assert(t.last() == b);
            if i > 0 {
                assert(t[t.len() - 2] == s@[i - 1]);
            }
        }
        if b == 9 || b == 10 || b == 11 || b == 12 || b == 13 || b == 32 {
            if cur.len() > 0 {
                let token = cur;
                done.push(token);
                cur = Vec::new();
                proof {
                    assert(done@.map_values(|v: Vec<u8>| v@) =~= old_done.push(old_cur));
                }
            }
        } else {
            cur.push(b);
            proof {
                if old_cur.len() > 0 {
                    lemma_fields_nonempty(s@.subrange(0, i as int));
                    let f = old_done.push(old_cur);
                    assert(old_done.push(cur@) =~= f.update(f.len() - 1, f.last().push(b)));
                } else {
                    assert(cur@ =~= seq![b]);
                }
            }
        }
        i = i + 1;
    }
    if cur.len() > 0 {
        done.push(cur);
    }
    proof {
        assert(s@.subrange(0, s@.len() as int) =~= s@);
    }
    done
}

} // verus!
