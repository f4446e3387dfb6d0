//! Laws of texts: letter case, search, order, figures and labels.

use vstd::prelude::*;
use vstd::utf8::*;

use crate::codec::{at_most, hex_form, sha256};
use crate::entries::{fingerprint, transport_label};
use crate::harness::{digits_value, number_value};
use crate::monitoring::TransportLayerType;
use crate::text::{
    ascii_lower, bytes_before, contains_run, decimal, run_at, signed_decimal, text_before,
};

verus! {

/// Folding to lower case keeps the length. It adds thirty-two to the code of each capital ASCII
/// letter and changes nothing else, so that no capital is left.
pub proof fn folding_changes_capitals_alone(s: Seq<char>, i: int)
    requires
        0 <= i < s.len(),
    ensures
        ascii_lower(s).len() == s.len(),
        'A' <= s[i] <= 'Z' ==> ascii_lower(s)[i] as int == s[i] as int + 32,
        s[i] < 'A' || 'Z' < s[i] ==> ascii_lower(s)[i] == s[i],
        !('A' <= ascii_lower(s)[i] <= 'Z'),
        ascii_lower(ascii_lower(s)) == ascii_lower(s),
{
    assert(ascii_lower(ascii_lower(s)) =~= ascii_lower(s));
}

/// `hay` is `before`, then `needle`, then `after`.
pub open spec fn stands_between<T>(hay: Seq<T>, before: Seq<T>, needle: Seq<T>, after: Seq<T>) -> bool {
    hay == before + needle + after
}

/// A run occurs exactly where it stands between something and something, either of which may be
/// nothing.
pub proof fn runs_stand_between<T>(hay: Seq<T>, needle: Seq<T>)
    ensures
        contains_run(hay, needle) <==> exists|before: Seq<T>, after: Seq<T>|
            #[trigger] stands_between(hay, before, needle, after),
        contains_run(hay, Seq::<T>::empty()),
        contains_run(hay, hay),
{
    if contains_run(hay, needle) {
        let i = choose|i: int| #[trigger] run_at(hay, needle, i);
        let n = needle.len() as int;
        assert(hay =~= hay.take(i) + hay.subrange(i, i + n) + hay.skip(i + n));
        assert(stands_between(hay, hay.take(i), needle, hay.skip(i + n)));
    }
    if exists|before: Seq<T>, after: Seq<T>| #[trigger] stands_between(hay, before, needle, after) {
        let (before, after) = choose|before: Seq<T>, after: Seq<T>|
            #[trigger] stands_between(hay, before, needle, after);
        assert(hay.subrange(before.len() as int, (before.len() + needle.len()) as int) =~= needle);
        assert(run_at(hay, needle, before.len() as int));
    }
    assert(hay.subrange(0, 0) =~= Seq::<T>::empty());
    assert(run_at(hay, Seq::<T>::empty(), 0));
    assert(hay.subrange(0, hay.len() as int) =~= hay);
    assert(run_at(hay, hay, 0));
}

/// The first byte in which two strings differ decides their order; where there is none, the
/// shorter one comes first.
pub proof fn the_first_difference_decides(a: Seq<u8>, b: Seq<u8>, n: int)
    requires
        0 <= n <= a.len(),
        n <= b.len(),
        forall|k: int| 0 <= k < n ==> a[k] == b[k],
    ensures
        n < a.len() && n < b.len() && a[n] != b[n] ==> (bytes_before(a, b) <==> a[n] < b[n]),
        n == a.len() ==> (bytes_before(a, b) <==> a.len() < b.len()),
        n == b.len() ==> !bytes_before(a, b),
    decreases n,
{
    if n > 0 {
        let x = a.drop_first();
        let y = b.drop_first();
        assert forall|k: int| 0 <= k < n - 1 implies x[k] == y[k] by {
            assert(x[k] == a[k + 1]);
            assert(y[k] == b[k + 1]);
        }
        the_first_difference_decides(x, y, n - 1);
        assert(a[0] == b[0]);
    }
}

/// A text comes before another exactly where its UTF-8 bytes do.
pub proof fn texts_are_ordered_by_their_bytes(a: Seq<char>, b: Seq<char>, n: int)
    requires
        0 <= n < encode_utf8(a).len(),
        n < encode_utf8(b).len(),
        forall|k: int| 0 <= k < n ==> encode_utf8(a)[k] == encode_utf8(b)[k],
        encode_utf8(a)[n] != encode_utf8(b)[n],
    ensures
        text_before(a, b) <==> encode_utf8(a)[n] < encode_utf8(b)[n],
        text_before(b, a) <==> encode_utf8(b)[n] < encode_utf8(a)[n],
{
    the_first_difference_decides(encode_utf8(a), encode_utf8(b), n);
    the_first_difference_decides(encode_utf8(b), encode_utf8(a), n);
}

/// The decimal form of a number is a run of digits that reads back as the number and has no zero
/// before it, unless the number is zero.
pub proof fn figures_read_back(n: nat)
    ensures
        decimal(n).len() > 0,
        digits_value(decimal(n)) == Some(n as int),
        forall|i: int| 0 <= i < decimal(n).len() ==> '0' <= #[trigger] decimal(n)[i] <= '9',
        decimal(n)[0] == '0' <==> n == 0,
        n < 10 ==> decimal(n).len() == 1 && decimal(n)[0] as int == 48 + n,
        n >= 10 ==> decimal(n).len() > 1,
    decreases n,
{
    if n < 10 {
        assert(decimal(n).drop_last() =~= Seq::<char>::empty());
        assert(digits_value(decimal(n).drop_last()) == Some(0int));
        assert(decimal(n).last() as int == 48 + n);
    } else {
        figures_read_back(n / 10);
        let d = decimal(n);
        assert(d.drop_last() =~= decimal(n / 10));
        assert(d.last() as int == 48 + n % 10);
        assert(d[0] == decimal(n / 10)[0]);
        assert forall|i: int| 0 <= i < d.len() implies '0' <= #[trigger] d[i] <= '9' by {
            if i < d.len() - 1 {
                assert(d[i] == decimal(n / 10)[i]);
            }
        }
    }
}

/// An integer is written with a minus sign exactly where it is negative, before the figures of
/// its size.
pub proof fn signs_come_first(n: int)
    ensures
        signed_decimal(n).len() > 0,
        signed_decimal(n)[0] == '-' <==> n < 0,
        n >= 0 ==> signed_decimal(n) == decimal(n as nat),
        n < 0 ==> signed_decimal(n).skip(1) == decimal((-n) as nat),
{
    if n < 0 {
        assert(signed_decimal(n).skip(1) =~= decimal((-n) as nat));
    } else {
        figures_read_back(n as nat);
        assert('0' <= decimal(n as nat)[0]);
    }
}

/// No two integers are written alike.
pub proof fn figures_are_distinct(a: int, b: int)
    requires
        signed_decimal(a) == signed_decimal(b),
    ensures
        a == b,
{
    signs_come_first(a);
    signs_come_first(b);
    if a < 0 {
        figures_read_back((-a) as nat);
        figures_read_back((-b) as nat);
    } else {
        figures_read_back(a as nat);
        figures_read_back(b as nat);
    }
}

/// A run of characters stands for a number exactly where all of them are digits; a digit more
/// makes it ten times as large and adds itself, and zeros before it do not count.
pub proof fn numbers_are_runs_of_digits(s: Seq<char>)
    ensures
        digits_value(s) is Some <==> forall|i: int| 0 <= i < s.len() ==> '0' <= #[trigger] s[i] <= '9',
        digits_value(s) matches Some(n) ==> n >= 0,
        digits_value(seq!['0'] + s) == digits_value(s),
    decreases s.len(),
{
    let z = seq!['0'] + s;
    if s.len() == 0 {
        assert(z.drop_last() =~= Seq::<char>::empty());
        assert(digits_value(z.drop_last()) == Some(0int));
        assert(z.last() == '0');
    } else {
        let t = s.drop_last();
        numbers_are_runs_of_digits(t);
        assert(z.drop_last() =~= seq!['0'] + t);
        assert(z.last() == s.last());
        assert(s[s.len() - 1] == s.last());
        if forall|i: int| 0 <= i < s.len() ==> '0' <= #[trigger] s[i] <= '9' {
            assert forall|i: int| 0 <= i < t.len() implies '0' <= #[trigger] t[i] <= '9' by {
                assert(t[i] == s[i]);
            }
        }
        if digits_value(s) is Some {
            assert forall|i: int| 0 <= i < s.len() implies '0' <= #[trigger] s[i] <= '9' by {
                if i < t.len() {
                    assert(t[i] == s[i]);
                }
            }
        }
    }
}

/// Every number that fits reads back from its figures, with and without a plus sign; a number
/// that does not fit is none, and neither is a sign alone or nothing.
pub proof fn fitting_numbers_are_read(n: nat)
    ensures
        n <= u64::MAX ==> number_value(decimal(n)) == Some(n as int),
        n <= u64::MAX ==> number_value(seq!['+'] + decimal(n)) == Some(n as int),
        n > u64::MAX ==> number_value(decimal(n)) is None,
        n > u64::MAX ==> number_value(seq!['+'] + decimal(n)) is None,
        number_value(Seq::empty()) is None,
        number_value(seq!['+']) is None,
        number_value(seq!['-'] + decimal(n)) is None,
        number_value(seq!['+', '+'] + decimal(n)) is None,
{
    figures_read_back(n);
    let d = decimal(n);
    assert('0' <= d[0] <= '9');
    assert((seq!['+'] + d).skip(1) =~= d);
    assert(seq!['+'].skip(1) =~= Seq::<char>::empty());
    let m = seq!['-'] + d;
    numbers_are_runs_of_digits(m);
    assert(m[0] == '-');
    let p = (seq!['+', '+'] + d).skip(1);
    numbers_are_runs_of_digits(p);
    assert(p[0] == '+');
}

/// The number that a lower-case hexadecimal digit stands for.
pub open spec fn half(c: char) -> int {
    if '0' <= c <= '9' {
        c as int - '0' as int
    } else {
        c as int - 'a' as int + 10
    }
}

/// Each byte is written as two lower-case hexadecimal digits that read back as the byte, the high
/// half first.
pub proof fn hexadecimal_digits_read_back(bytes: Seq<u8>, i: int)
    requires
        0 <= i < bytes.len(),
    ensures
        hex_form(bytes).len() == 2 * bytes.len(),
        ({
            let a = hex_form(bytes)[2 * i];
            let b = hex_form(bytes)[2 * i + 1];
            &&& '0' <= a <= '9' || 'a' <= a <= 'f'
            &&& '0' <= b <= '9' || 'a' <= b <= 'f'
            &&& 16 * half(a) + half(b) == bytes[i]
        }),
{
    let x = bytes[i] as int;
    assert((2 * i) % 2 == 0 && (2 * i) / 2 == i);
    assert((2 * i + 1) % 2 == 1 && (2 * i + 1) / 2 == i);
    assert(0 <= x / 16 < 16 && 0 <= x % 16 < 16 && 16 * (x / 16) + x % 16 == x);
}

/// What is cut off at a length is the start of the whole, as long as that reaches.
pub proof fn cuts_are_starts<T>(s: Seq<T>, n: int, i: int)
    requires
        0 <= n,
        0 <= i < s.len(),
    ensures
        at_most(s, n).len() <= n,
        at_most(s, n).len() == s.len() || at_most(s, n).len() == n,
        i < n ==> i < at_most(s, n).len() && at_most(s, n)[i] == s[i],
{
}

/// A descriptor has a fingerprint exactly where it is not empty: sixteen digits, those of the
/// first eight bytes of its digest.
pub proof fn fingerprints_start_the_digest(descriptor: Seq<u8>, i: int)
    requires
        sha256(descriptor).len() == 32,
        0 <= i < 8,
    ensures
        fingerprint(descriptor) is None <==> descriptor.len() == 0,
        fingerprint(descriptor) matches Some(f) ==> {
            &&& f.len() == 16
            &&& 16 * half(f[2 * i]) + half(f[2 * i + 1]) == sha256(descriptor)[i]
        },
{
    hexadecimal_digits_read_back(sha256(descriptor), i);
    cuts_are_starts(hex_form(sha256(descriptor)), 16, 2 * i);
    cuts_are_starts(hex_form(sha256(descriptor)), 16, 2 * i + 1);
}

/// Each kind of transport has its label, and no other kind has it.
pub proof fn transports_have_their_labels(a: TransportLayerType, b: TransportLayerType)
    ensures
        transport_label(a) == "none"@ <==> a is NoLayer,
        transport_label(a) == "udp_mc"@ <==> a is UdpMulticast,
        transport_label(a) == "shm"@ <==> a is Shm,
        transport_label(a) == "tcp"@ <==> a is Tcp,
        a matches TransportLayerType::Unknown(n) ==> transport_label(a) == "unknown:"@ + signed_decimal(n as int),
        transport_label(a) == transport_label(b) <==> a == b,
{
    reveal_strlit("none");
    reveal_strlit("udp_mc");
    reveal_strlit("shm");
    reveal_strlit("tcp");
    reveal_strlit("unknown:");
    let x = transport_label(a);
    let y = transport_label(b);
    if a is Unknown {
        signs_come_first(a->Unknown_0 as int);
        assert(x.len() > 8);
        assert(x.skip(8) =~= signed_decimal(a->Unknown_0 as int));
    } else {
        assert(x.len() <= 6);
        assert(x[0] == 'n' || x[0] == 'u' || x[0] == 's' || x[0] == 't');
    }
    if b is Unknown {
        signs_come_first(b->Unknown_0 as int);
        assert(y.skip(8) =~= signed_decimal(b->Unknown_0 as int));
    } else {
        assert(y.len() <= 6);
        assert(y[0] == 'n' || y[0] == 'u' || y[0] == 's' || y[0] == 't');
    }
    if x == y && a is Unknown && b is Unknown {
        figures_are_distinct(a->Unknown_0 as int, b->Unknown_0 as int);
    }
    assert("none"@[0] == 'n' && "udp_mc"@[0] == 'u' && "shm"@[0] == 's' && "tcp"@[0] == 't');
}

} // verus!
