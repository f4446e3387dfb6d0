//! The logic of the three test peers: a publisher, a subscriber and a service server.

use vstd::prelude::*;

use crate::sort::texts;
use crate::text::{chars_of, decimal, push_decimal, same_text};

verus! {

/// Why a peer does not take its arguments.
#[derive(Debug)]
pub enum PeerError {
    /// An argument that is not known, or that lacks its value.
    Unknown(String),
    /// An interval that is no number.
    Interval,
}

/// What a peer's error says.
pub enum PeerErrorView {
    Unknown(Seq<char>),
    Interval,
}

impl View for PeerError {
    type V = PeerErrorView;

    open spec fn view(&self) -> PeerErrorView {
        match *self {
            PeerError::Unknown(s) => PeerErrorView::Unknown(s@),
            PeerError::Interval => PeerErrorView::Interval,
        }
    }
}

/// The wording of a peer's error.
pub open spec fn peer_error_wording(e: PeerErrorView) -> Seq<char> {
    match e {
        PeerErrorView::Unknown(s) => "unknown argument: "@ + s,
        PeerErrorView::Interval => "invalid --interval-ms"@,
    }
}

/// The wording of a peer's error.
pub fn peer_error_text(e: &PeerError) -> (r: String)
    ensures
        r@ == peer_error_wording(e@),
{
    match e {
        PeerError::Unknown(s) => {
            let mut r = "unknown argument: ".to_owned();
            r.append(s.as_str());
            r
        },
        PeerError::Interval => "invalid --interval-ms".to_owned(),
    }
}

/// What the test publisher is asked to do.
#[derive(Debug)]
pub struct PublisherOptions {
    pub topic: String,
    pub prefix: String,
    pub interval_ms: u64,
}

/// Content of `PublisherOptions`.
pub struct PublisherOptionsView {
    pub topic: Seq<char>,
    pub prefix: Seq<char>,
    pub interval_ms: int,
}

impl View for PublisherOptions {
    type V = PublisherOptionsView;

    open spec fn view(&self) -> PublisherOptionsView {
        PublisherOptionsView {
            topic: self.topic@,
            prefix: self.prefix@,
            interval_ms: self.interval_ms as int,
        }
    }
}

/// The number that a run of decimal digits stands for; none where there is another character.
pub open spec fn digits_value(s: Seq<char>) -> Option<int>
    decreases s.len(),
{
    if s.len() == 0 {
        Some(0)
    } else {
        match digits_value(s.drop_last()) {
            Some(n) if '0' <= s.last() && s.last() <= '9' => Some(10 * n + (s.last() as int - '0' as int)),
            _ => None,
        }
    }
}

/// The digits of a number: a plus sign may stand before them.
pub open spec fn unsigned_digits(s: Seq<char>) -> Seq<char> {
    if s.len() > 0 && s[0] == '+' {
        s.skip(1)
    } else {
        s
    }
}

/// The number that a text stands for, where it is one and fits.
pub open spec fn number_value(s: Seq<char>) -> Option<int> {
    let d = unsigned_digits(s);
    match digits_value(d) {
        Some(n) if d.len() > 0 && n <= u64::MAX => Some(n),
        _ => None,
    }
}

proof fn lemma_digits_grow(s: Seq<char>, n: int)
    requires
        0 <= n <= s.len(),
        digits_value(s) is Some,
    ensures
        digits_value(s.take(n)) is Some,
        0 <= digits_value(s.take(n))->Some_0 <= digits_value(s)->Some_0,
    decreases s.len(),
{
    if n < s.len() {
        lemma_digits_grow(s.drop_last(), n);
        assert(s.drop_last().take(n) =~= s.take(n));
    } else {
        assert(s.take(n) =~= s);
        if s.len() > 0 {
            lemma_digits_grow(s.drop_last(), 0);
        }
    }
}

/// Reads an unsigned number.
pub fn parse_number(s: &str) -> (r: Option<u64>)
    ensures
        match r {
            Some(n) => number_value(s@) == Some(n as int),
            None => number_value(s@) is None,
        },
{
    let chars = chars_of(s);
    let start: usize = if chars.len() > 0 && chars[0] == '+' {
        1
    } else {
        0
    };
    let ghost d = unsigned_digits(s@);
    assert(d =~= s@.skip(start as int));
    if start == chars.len() {
        return None;
    }
    let mut n: u64 = 0;
    let mut i: usize = start;
    assert(d.take(0) =~= Seq::<char>::empty());
    while i < chars.len()
        invariant
            start <= i <= chars.len(),
            chars@ == s@,
            d == s@.skip(start as int),
            d == unsigned_digits(s@),
            digits_value(d.take(i - start)) == Some(n as int),
        decreases chars.len() - i,
    {
        let c = chars[i];
        proof {
            assert(d.take(i - start + 1).drop_last() =~= d.take(i - start));
            assert(d.take(i - start + 1).last() == c);
            if digits_value(d) is Some {
                lemma_digits_grow(d, i - start + 1);
            }
        }
        if c < '0' || c > '9' {
            return None;
        }
        let x: u64 = c as u64 - 48;
        if n > (u64::MAX - x) / 10 {
            proof {
                assert(10 * n + x > u64::MAX);
            }
            return None;
        }
        n = n * 10 + x;
        i += 1;
    }
    assert(d.take(i - start) =~= d);
    Some(n)
}

/// The options that arguments give, starting from `o`: each known flag takes the next argument,
/// the last one of a flag counts, and anything else ends the reading.
pub open spec fn publisher_options(args: Seq<Seq<char>>, o: PublisherOptionsView) -> Result<
    PublisherOptionsView,
    PeerErrorView,
>
    decreases args.len(),
{
    if args.len() == 0 {
        Ok(o)
    } else if args[0] == "--topic"@ && args.len() >= 2 {
        publisher_options(args.skip(2), PublisherOptionsView { topic: args[1], ..o })
    } else if args[0] == "--prefix"@ && args.len() >= 2 {
        publisher_options(args.skip(2), PublisherOptionsView { prefix: args[1], ..o })
    } else if args[0] == "--interval-ms"@ && args.len() >= 2 {
        match number_value(args[1]) {
            Some(n) => publisher_options(args.skip(2), PublisherOptionsView { interval_ms: n, ..o }),
            None => Err(PeerErrorView::Interval),
        }
    } else {
        Err(PeerErrorView::Unknown(args[0]))
    }
}

/// What the test publisher does where nothing is asked.
pub open spec fn publisher_defaults() -> PublisherOptionsView {
    PublisherOptionsView { topic: "ecal_mcp_e2e"@, prefix: "hello-from-e2e"@, interval_ms: 100 }
}

/// Reads the arguments of the test publisher, the program's name left out.
pub fn parse_args(args: &Vec<String>) -> (r: Result<PublisherOptions, PeerError>)
    ensures
        match r {
            Ok(o) => publisher_options(texts(args@), publisher_defaults()) == Ok::<
                PublisherOptionsView,
                PeerErrorView,
            >(o@),
            Err(e) => publisher_options(texts(args@), publisher_defaults()) == Err::<
                PublisherOptionsView,
                PeerErrorView,
            >(e@),
        },
{
    let mut topic = "ecal_mcp_e2e".to_owned();
    let mut prefix = "hello-from-e2e".to_owned();
    let mut interval_ms: u64 = 100;
    let ghost all = texts(args@);
    let mut i: usize = 0;
    assert(all.skip(0) =~= all);
    while i < args.len()
        invariant
            i <= args.len(),
            all == texts(args@),
            publisher_options(all, publisher_defaults()) == publisher_options(
                all.skip(i as int),
                PublisherOptionsView { topic: topic@, prefix: prefix@, interval_ms: interval_ms as int },
            ),
        decreases args.len() - i,
    {
        let flag = args[i].as_str();
        let has_value = args.len() - i >= 2;
        proof {
            assert(all.skip(i as int)[0] == flag@);
            if has_value {
                assert(all.skip(i as int)[1] == args@[i + 1]@);
                assert(all.skip(i as int).skip(2) =~= all.skip(i + 2));
            }
        }
        if same_text(flag, "--topic") && has_value {
            topic = args[i + 1].clone();
            i += 2;
        } else if same_text(flag, "--prefix") && has_value {
            prefix = args[i + 1].clone();
            i += 2;
        } else if same_text(flag, "--interval-ms") && has_value {
            match parse_number(args[i + 1].as_str()) {
                Some(n) => {
                    interval_ms = n;
                },
                None => {
                    return Err(PeerError::Interval);
                },
            }
            i += 2;
        } else {
            return Err(PeerError::Unknown(flag.to_owned()));
        }
    }
    Ok(PublisherOptions { topic, prefix, interval_ms })
}

/// The value that arguments give to the one flag that is known, starting from `value`.
pub open spec fn flag_value(args: Seq<Seq<char>>, flag: Seq<char>, value: Seq<char>) -> Result<
    Seq<char>,
    PeerErrorView,
>
    decreases args.len(),
{
    if args.len() == 0 {
        Ok(value)
    } else if args[0] == flag && args.len() >= 2 {
        flag_value(args.skip(2), flag, args[1])
    } else {
        Err(PeerErrorView::Unknown(args[0]))
    }
}

fn parse_flag(args: &Vec<String>, flag: &str, default: &str) -> (r: Result<String, PeerError>)
    ensures
        match r {
            Ok(v) => flag_value(texts(args@), flag@, default@) == Ok::<Seq<char>, PeerErrorView>(v@),
            Err(e) => flag_value(texts(args@), flag@, default@) == Err::<Seq<char>, PeerErrorView>(e@),
        },
{
    let mut value = default.to_owned();
    let ghost all = texts(args@);
    let mut i: usize = 0;
    assert(all.skip(0) =~= all);
    while i < args.len()
        invariant
            i <= args.len(),
            all == texts(args@),
            flag_value(all, flag@, default@) == flag_value(all.skip(i as int), flag@, value@),
        decreases args.len() - i,
    {
        proof {
            assert(all.skip(i as int)[0] == args@[i as int]@);
            if args.len() - i >= 2 {
                assert(all.skip(i as int)[1] == args@[i + 1]@);
                assert(all.skip(i as int).skip(2) =~= all.skip(i + 2));
            }
        }
        if same_text(args[i].as_str(), flag) && args.len() - i >= 2 {
            value = args[i + 1].clone();
            i += 2;
        } else {
            return Err(PeerError::Unknown(args[i].clone()));
        }
    }
    Ok(value)
}

/// The topic that arguments give to the test subscriber.
pub open spec fn subscriber_topic(args: Seq<Seq<char>>) -> Result<Seq<char>, PeerErrorView> {
    flag_value(args, "--topic"@, "ecal_mcp_realnet_pub"@)
}

/// The name that arguments give to the test service.
pub open spec fn service_name(args: Seq<Seq<char>>) -> Result<Seq<char>, PeerErrorView> {
    flag_value(args, "--service"@, "ecal_mcp_test_service"@)
}

/// Reads the arguments of the test subscriber: the topic.
pub fn parse_subscriber_args(args: &Vec<String>) -> (r: Result<String, PeerError>)
    ensures
        match r {
            Ok(v) => subscriber_topic(texts(args@)) == Ok::<Seq<char>, PeerErrorView>(v@),
            Err(e) => subscriber_topic(texts(args@)) == Err::<Seq<char>, PeerErrorView>(e@),
        },
{
    parse_flag(args, "--topic", "ecal_mcp_realnet_pub")
}

/// Reads the arguments of the test service server: the name of the service.
pub fn parse_service_args(args: &Vec<String>) -> (r: Result<String, PeerError>)
    ensures
        match r {
            Ok(v) => service_name(texts(args@)) == Ok::<Seq<char>, PeerErrorView>(v@),
            Err(e) => service_name(texts(args@)) == Err::<Seq<char>, PeerErrorView>(e@),
        },
{
    parse_flag(args, "--service", "ecal_mcp_test_service")
}

/// The message that the test publisher sends as its `counter`th.
pub open spec fn message_at(prefix: Seq<char>, counter: u64) -> Seq<char> {
    prefix + " "@ + decimal(counter as nat)
}

/// The counter that follows.
pub open spec fn next_counter(counter: u64) -> int {
    if counter == u64::MAX {
        0
    } else {
        counter + 1
    }
}

/// The message that the test publisher sends as its `counter`th, and the next counter, which
/// starts over at its end.
pub fn next_message(prefix: &str, counter: u64) -> (r: (String, u64))
    ensures
        r.0@ == message_at(prefix@, counter),
        r.1 == next_counter(counter),
{
    let mut message = prefix.to_owned();
    message.append(" ");
    push_decimal(&mut message, counter);
    (message, counter.wrapping_add(1))
}

/// The `echo` method of the test service: the request as it is.
pub fn echo(request: &[u8]) -> (r: Vec<u8>)
    ensures
        r@ == request@,
{
    vstd::slice::slice_to_vec(request)
}

/// The `reverse` method of the test service: the request backwards.
pub fn reverse(request: &[u8]) -> (r: Vec<u8>)
    ensures
        r@ == request@.reverse(),
{
    let mut r: Vec<u8> = Vec::new();
    let mut i: usize = request.len();
    while i > 0
        invariant
            i <= request.len(),
            r.len() == request.len() - i,
            forall|k: int| 0 <= k < r.len() ==> #[trigger] r@[k] == request@[request.len() - 1 - k],
        decreases i,
    {
        i -= 1;
        r.push(request[i]);
    }
    assert(r@ =~= request@.reverse());
    r
}

/// Reversing twice gives the request back.
pub proof fn reversing_twice_is_echo(request: Seq<u8>)
    ensures
        request.reverse().reverse() == request,
{
    assert(request.reverse().reverse() =~= request);
}

} // verus!
