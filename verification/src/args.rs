//! The arguments of the peer program.
//!
//! A peer is started in one of three ways: with `-s SERVER_ADDR` to meet others at a server, with
//! `-a MY_IP:MY_PORT` and any number of `-p PEER_IP:PEER_PORT,PEER_SAMPLE_RATE` to name the others
//! itself, or with a bare address to meet others at a signaling server. What follows a bare address
//! is ignored.

use vstd::prelude::*;
use vstd::slice::slice_subrange;
use vstd::slice::slice_to_vec;

verus! {

/// How a peer finds others.
#[derive(Debug, PartialEq, Eq)]
pub enum PeerMode {
    /// At the server with this address.
    Server { addr: Vec<u8> },
    /// By their addresses and sample rates, using this address itself.
    Manual { addr: Vec<u8>, peers: Vec<(Vec<u8>, u32)> },
    /// At the signaling server with this address.
    Signaling { addr: Vec<u8> },
}

/// The number that a string of decimal digits denotes.
pub open spec fn decimal_value(digits: Seq<u8>) -> nat
    decreases digits.len(),
{
    if digits.len() == 0 {
        0
    } else {
        (10 * decimal_value(digits.drop_last()) + (digits.last() - 0x30)) as nat
    }
}

/// All of the bytes are decimal digits.
pub open spec fn all_digits(bytes: Seq<u8>) -> bool {
    forall|i: int| 0 <= i < bytes.len() ==> 0x30 <= #[trigger] bytes[i] <= 0x39
}

/// The number that `bytes` denote, if they are decimal digits and it fits.
pub open spec fn decimal_of(bytes: Seq<u8>) -> Option<u32> {
    if bytes.len() > 0 && all_digits(bytes) && decimal_value(bytes) <= u32::MAX {
        Some(decimal_value(bytes) as u32)
    } else {
        None
    }
}

/// More digits do not make a number smaller.
proof fn lemma_decimal_grows(digits: Seq<u8>, n: int)
    requires
        0 <= n <= digits.len(),
        all_digits(digits),
    ensures
        decimal_value(digits.take(n)) <= decimal_value(digits),
    decreases digits.len() - n,
{
    if n < digits.len() {
        lemma_decimal_grows(digits, n + 1);
        assert(digits.take(n + 1).drop_last() =~= digits.take(n));
        assert(0x30 <= digits[n]);
    } else {
        assert(digits.take(n) =~= digits);
    }
}

/// Reads a decimal number.
pub fn parse_decimal(bytes: &[u8]) -> (value: Option<u32>)
    ensures
        value == decimal_of(bytes@),
{
    if bytes.len() == 0 {
        return None;
    }
    let mut value: u32 = 0;
    let mut i: usize = 0;
    while i < bytes.len()
        invariant
            i <= bytes@.len(),
            bytes@.len() > 0,
            all_digits(bytes@.take(i as int)),
            value == decimal_value(bytes@.take(i as int)),
        decreases bytes@.len() - i,
    {
        let byte: u8 = bytes[i];
        if byte < 0x30 || byte > 0x39 {
            assert(!all_digits(bytes@)) by {
                assert(bytes@[i as int] == byte);
            }
            return None;
        }
        let next: u64 = 10 * value as u64 + (byte - 0x30) as u64;
        proof {
            assert(bytes@.take(i + 1).drop_last() =~= bytes@.take(i as int));
            assert(next == decimal_value(bytes@.take(i + 1)));
            assert(all_digits(bytes@.take(i + 1))) by {
                assert forall|j: int| 0 <= j < i + 1 implies 0x30 <= #[trigger] bytes@.take(
                    i + 1,
                )[j] <= 0x39 by {
                    if j < i {
                        assert(bytes@.take(i as int)[j] == bytes@.take(i + 1)[j]);
                    }
                }
            }
        }
        if next > u32::MAX as u64 {
            proof {
                if all_digits(bytes@) {
                    lemma_decimal_grows(bytes@, i + 1);
                }
            }
            return None;
        }
        value = next as u32;
        i = i + 1;
    }
    assert(bytes@.take(bytes@.len() as int) =~= bytes@);
    Some(value)
}

/// The address and the sample rate that `bytes` name, with the first comma between them.
pub open spec fn peer_of(bytes: Seq<u8>) -> Option<(Seq<u8>, u32)> {
    match bytes.index_of_first(0x2c) {
        Some(comma) => match decimal_of(bytes.skip(comma + 1)) {
            Some(sample_rate) => Some((bytes.take(comma), sample_rate)),
            None => None,
        },
        None => None,
    }
}

/// Reads `PEER_IP:PEER_PORT,PEER_SAMPLE_RATE`: the address, and the sample rate.
pub fn parse_peer(bytes: &[u8]) -> (peer: Option<(Vec<u8>, u32)>)
    ensures
        peer_of(bytes@) == match peer {
            Some((addr, sample_rate)) => Some((addr@, sample_rate)),
            None => None,
        },
{
    proof {
        bytes@.index_of_first_ensures(0x2c);
    }
    let mut i: usize = 0;
    while i < bytes.len()
        invariant
            i <= bytes@.len(),
            forall|j: int| 0 <= j < i ==> #[trigger] bytes@[j] != 0x2c,
            match bytes@.index_of_first(0x2c) {
                Some(comma) => 0 <= comma < bytes@.len() && bytes@[comma] == 0x2c && forall|
                    j: int,
                |
                    0 <= j < comma ==> bytes@[j] != 0x2c,
                None => forall|j: int| 0 <= j < bytes@.len() ==> bytes@[j] != 0x2c,
            },
        decreases bytes@.len() - i,
    {
        if bytes[i] == 0x2c {
            assert(bytes@.index_of_first(0x2c) == Some(i as int));
            let digits: &[u8] = slice_subrange(bytes, i + 1, bytes.len());
            assert(digits@ =~= bytes@.skip(i + 1));
            return match parse_decimal(digits) {
                Some(sample_rate) => {
                    let addr: Vec<u8> = slice_to_vec(slice_subrange(bytes, 0, i));
                    assert(addr@ =~= bytes@.take(i as int));
                    Some((addr, sample_rate))
                },
                None => None,
            };
        }
        i = i + 1;
    }
    None
}

/// The option that is written as a hyphen and a letter.
pub open spec fn flag(letter: u8) -> Seq<u8> {
    seq![0x2du8, letter]
}

/// The letter of the option for the address of a server.
pub const SERVER: u8 = 0x73;

/// The letter of the option for the own address.
pub const ADDRESS: u8 = 0x61;

/// The letter of the option for a peer.
pub const PEER: u8 = 0x70;

/// Whether an argument is the option with the given letter.
fn is_flag(arg: &Vec<u8>, letter: u8) -> (yes: bool)
    ensures
        yes <==> arg@ == flag(letter),
{
    let yes: bool = arg.len() == 2 && arg[0] == 0x2d && arg[1] == letter;
    assert(yes ==> arg@ =~= flag(letter));
    yes
}

/// What the first options, `pairs` in number, name: the own address, if it is named, and the peers
/// in order. `None` where an option is unknown, the own address is named twice, or a peer is not
/// well named.
pub open spec fn named_by(args: Seq<Vec<u8>>, pairs: nat) -> Option<
    (Option<Seq<u8>>, Seq<(Seq<u8>, u32)>),
>
    decreases pairs,
{
    if pairs == 0 {
        Some((None, Seq::empty()))
    } else {
        let option = args[2 * pairs - 2]@;
        let value = args[2 * pairs - 1]@;
        match named_by(args, (pairs - 1) as nat) {
            Some((addr, peers)) => if option == flag(ADDRESS) && addr is None {
                Some((Some(value), peers))
            } else if option == flag(PEER) && peer_of(value) is Some {
                Some((addr, peers.push(peer_of(value)->0)))
            } else {
                None
            },
            None => None,
        }
    }
}

/// Where an option is not understood, nor are the options together.
proof fn lemma_named_by_prefix(args: Seq<Vec<u8>>, pairs: nat, all: nat)
    requires
        pairs <= all,
        named_by(args, pairs) is None,
    ensures
        named_by(args, all) is None,
    decreases all - pairs,
{
    if pairs < all {
        lemma_named_by_prefix(args, pairs + 1, all);
    }
}

/// Where options name an own address, the first of them is one of those that do.
proof fn lemma_manual_begins_with_option(args: Seq<Vec<u8>>)
    requires
        args.len() % 2 == 0,
        named_by(args, args.len() / 2) matches Some((addr, _)) && addr is Some,
    ensures
        args.len() >= 2,
        args[0]@ == flag(ADDRESS) || args[0]@ == flag(PEER),
{
    if args.len() >= 2 && !(args[0]@ == flag(ADDRESS) || args[0]@ == flag(PEER)) {
        reveal_with_fuel(named_by, 2);
        lemma_named_by_prefix(args, 1, args.len() / 2);
    }
}

/// The arguments ask for a mode.
pub open spec fn asks_for(args: Seq<Vec<u8>>, mode: PeerMode) -> bool {
    match mode {
        PeerMode::Signaling { addr } => args.len() >= 1 && args[0]@ == addr@ && !(addr@.len() > 0
            && addr@[0] == 0x2d),
        PeerMode::Server { addr } => args.len() == 2 && args[0]@ == flag(SERVER) && args[1]@
            == addr@,
        PeerMode::Manual { addr, peers } => args.len() % 2 == 0 && named_by(args, args.len() / 2)
            == Some((Some(addr@), peers_view(peers@))),
    }
}

/// The arguments ask for no mode.
pub open spec fn asks_for_nothing(args: Seq<Vec<u8>>) -> bool {
    forall|mode: PeerMode| !#[trigger] asks_for(args, mode)
}

/// Peers by the bytes of their addresses.
pub open spec fn peers_view(peers: Seq<(Vec<u8>, u32)>) -> Seq<(Seq<u8>, u32)> {
    peers.map_values(|peer: (Vec<u8>, u32)| (peer.0@, peer.1))
}

/// Arguments never ask for two things: any two modes that they ask for are of one kind, with the
/// same addresses and sample rates in the same order.
pub proof fn law_arguments_are_unambiguous(args: Seq<Vec<u8>>, first: PeerMode, second: PeerMode)
    requires
        asks_for(args, first),
        asks_for(args, second),
    ensures
        match (first, second) {
            (PeerMode::Server { addr: a }, PeerMode::Server { addr: b }) => a@ == b@,
            (PeerMode::Manual { addr: a, peers: p }, PeerMode::Manual { addr: b, peers: q }) => a@
                == b@ && peers_view(p@) == peers_view(q@),
            (PeerMode::Signaling { addr: a }, PeerMode::Signaling { addr: b }) => a@ == b@,
            _ => false,
        },
{
    if first is Manual || second is Manual {
        lemma_manual_begins_with_option(args);
    }
    assert(flag(SERVER)[0] == 0x2d && flag(SERVER)[1] == SERVER);
    assert(flag(ADDRESS)[0] == 0x2d && flag(ADDRESS)[1] == ADDRESS);
    assert(flag(PEER)[0] == 0x2d && flag(PEER)[1] == PEER);
}

/// Reads the arguments of the peer program, without its name. `None` where they ask for nothing.
pub fn parse_args(args: &Vec<Vec<u8>>) -> (mode: Option<PeerMode>)
    ensures
        match mode {
            Some(m) => asks_for(args@, m),
            None => asks_for_nothing(args@),
        },
{
    if args.len() >= 1 && !(args[0].len() > 0 && args[0][0] == 0x2d) {
        let addr: Vec<u8> = slice_to_vec(args[0].as_slice());
        return Some(PeerMode::Signaling { addr });
    }
    if args.len() == 2 && is_flag(&args[0], SERVER) {
        let addr: Vec<u8> = slice_to_vec(args[1].as_slice());
        return Some(PeerMode::Server { addr });
    }
    let len: usize = args.len();
    if len % 2 != 0 {
        return None;
    }
    let pairs: usize = len / 2;
    let mut own: Option<Vec<u8>> = None;
    let mut peers: Vec<(Vec<u8>, u32)> = Vec::new();
    assert(peers_view(peers@) =~= Seq::empty());
    let mut i: usize = 0;
    while i < pairs
        invariant
            i <= pairs,
            len == args@.len(),
            2 * pairs == len,
            !(args@.len() == 2 && args@[0]@ == flag(SERVER)),
            args@.len() >= 1 ==> args@[0]@.len() > 0 && args@[0]@[0] == 0x2d,
            named_by(args@, i as nat) == Some(
                (
                    match own {
                        Some(addr) => Some(addr@),
                        None => None,
                    },
                    peers_view(peers@),
                ),
            ),
        decreases pairs - i,
    {
        let option: &Vec<u8> = &args[2 * i];
        let value: &Vec<u8> = &args[2 * i + 1];
        if is_flag(option, ADDRESS) && own.is_none() {
            own = Some(slice_to_vec(value.as_slice()));
        } else if is_flag(option, PEER) {
            match parse_peer(value.as_slice()) {
                Some(peer) => {
                    let ghost before = peers@;
                    peers.push(peer);
                    assert(peers_view(peers@) =~= peers_view(before).push((peer.0@, peer.1)));
                },
                None => {
                    proof {
                        lemma_named_by_prefix(args@, (i + 1) as nat, pairs as nat);
                    }
                    return None;
                },
            }
        } else {
            proof {
                lemma_named_by_prefix(args@, (i + 1) as nat, pairs as nat);
            }
            return None;
        }
        i = i + 1;
    }
    match own {
        Some(addr) => Some(PeerMode::Manual { addr, peers }),
        None => None,
    }
}

/// A decimal number, digit by digit: one more digit multiplies by ten and adds the digit. What is
/// empty, holds anything but digits, or is too large is no number.
pub proof fn law_decimal_digits(digits: Seq<u8>, digit: u8)
    ensures
        decimal_value(Seq::empty()) == 0,
        0x30 <= digit ==> decimal_value(digits.push(digit)) == 10 * decimal_value(digits) + (digit
            - 0x30),
        decimal_of(digits) is Some <==> digits.len() > 0 && (forall|i: int|
            0 <= i < digits.len() ==> 0x30 <= #[trigger] digits[i] && digits[i] <= 0x39)
            && decimal_value(digits) <= 0xffff_ffff,
        decimal_of(digits) matches Some(value) ==> value == decimal_value(digits),
{
    assert(digits.push(digit).drop_last() =~= digits);
}

/// A peer is named by an address, a comma and a sample rate: the address holds no comma, and what is
/// behind the comma is a decimal number.
pub proof fn law_peer_names(bytes: Seq<u8>, addr: Seq<u8>, digits: Seq<u8>)
    ensures
        bytes == addr + seq![0x2cu8] + digits && !addr.contains(0x2c) ==> peer_of(bytes)
            == match decimal_of(digits) {
            Some(sample_rate) => Some((addr, sample_rate)),
            None => None,
        },
        !bytes.contains(0x2c) ==> peer_of(bytes) is None,
{
    bytes.index_of_first_ensures(0x2c);
    if bytes == addr + seq![0x2cu8] + digits && !addr.contains(0x2c) {
        let n = addr.len() as int;
        assert(bytes[n] == 0x2c);
        assert(bytes.contains(0x2c));
        assert forall|k: int| 0 <= k < n implies bytes[k] != 0x2c by {
            assert(addr.contains(addr[k]));
        }
        assert(bytes.index_of_first(0x2c) == Some(n)) by {
            let first = bytes.index_of_first(0x2c)->0;
            assert(0 <= first < bytes.len() && bytes[first] == 0x2c);
            assert(first >= n);
            assert(first <= n);
        }
        assert(bytes.take(n) =~= addr);
        assert(bytes.skip(n + 1) =~= digits);
    }
}

/// The option with the index `at` names a peer.
pub open spec fn peer_at(args: Seq<Vec<u8>>, at: int, peer: (Seq<u8>, u32)) -> bool {
    args[2 * at]@ == seq![0x2du8, 0x70u8] && peer_of(args[2 * at + 1]@) == Some(peer)
}

/// Of the first `pairs` options, the one with the index `a` names the own address, and the others
/// name the peers, in order.
spec fn laid_out(
    args: Seq<Vec<u8>>,
    pairs: nat,
    addr: Seq<u8>,
    peers: Seq<(Seq<u8>, u32)>,
    a: int,
) -> bool {
    &&& 0 <= a < pairs
    &&& args[2 * a]@ == seq![0x2du8, 0x61u8]
    &&& args[2 * a + 1]@ == addr
    &&& peers.len() == pairs - 1
    &&& forall|p: int| 0 <= p < a ==> peer_at(args, p, #[trigger] peers[p])
    &&& forall|p: int| a <= p < peers.len() ==> peer_at(args, p + 1, #[trigger] peers[p])
}

/// The first `pairs` options all name peers, in order.
spec fn all_peers(args: Seq<Vec<u8>>, pairs: nat, peers: Seq<(Seq<u8>, u32)>) -> bool {
    &&& peers.len() == pairs
    &&& forall|p: int| 0 <= p < pairs ==> peer_at(args, p, #[trigger] peers[p])
}

/// What options name, pair by pair.
proof fn lemma_named_pairs(
    args: Seq<Vec<u8>>,
    pairs: nat,
    addr: Option<Seq<u8>>,
    peers: Seq<(Seq<u8>, u32)>,
) -> (a: int)
    requires
        2 * pairs <= args.len(),
        named_by(args, pairs) == Some((addr, peers)),
    ensures
        addr is None ==> all_peers(args, pairs, peers),
        addr is Some ==> laid_out(args, pairs, addr->0, peers, a),
    decreases pairs,
{
    if pairs == 0 {
        0
    } else {
        let last = pairs - 1;
        let (prior_addr, prior) = named_by(args, last as nat)->0;
        let before = lemma_named_pairs(args, last as nat, prior_addr, prior);
        let option = args[2 * pairs - 2]@;
        let value = args[2 * pairs - 1]@;
        assert(2 * last == 2 * pairs - 2 && 2 * last + 1 == 2 * pairs - 1);
        assert(flag(ADDRESS) =~= seq![0x2du8, 0x61u8]);
        assert(flag(PEER) =~= seq![0x2du8, 0x70u8]);
        if option == flag(ADDRESS) && prior_addr is None {
            assert(peers == prior && addr == Some(value));
            assert(laid_out(args, pairs, value, peers, last));
            last
        } else {
            let peer = peer_of(value)->0;
            assert(peers == prior.push(peer) && addr == prior_addr);
            assert(peer_at(args, last, peer));
            assert forall|p: int| 0 <= p < prior.len() implies #[trigger] peers[p] == prior[p] by {}
            if addr is None {
                assert(all_peers(args, pairs, peers));
            } else {
                assert(laid_out(args, pairs, addr->0, peers, before));
            }
            before
        }
    }
}

/// Options that name the own address once, with `-a`, and otherwise peers, with `-p`, are understood.
proof fn lemma_named_pairs_converse(args: Seq<Vec<u8>>, pairs: nat, a: int)
    requires
        2 * pairs <= args.len(),
        0 <= a,
        a < pairs ==> args[2 * a]@ == seq![0x2du8, 0x61u8],
        forall|p: int|
            #![trigger args[2 * p]]
            0 <= p < pairs && p != a ==> args[2 * p]@ == seq![0x2du8, 0x70u8] && peer_of(
                args[2 * p + 1]@,
            ) is Some,
    ensures
        named_by(args, pairs) matches Some((own, _)) && (own is Some <==> a < pairs),
    decreases pairs,
{
    if pairs > 0 {
        lemma_named_pairs_converse(args, (pairs - 1) as nat, a);
        let last = pairs - 1;
        assert(args[2 * last]@ == args[2 * pairs - 2]@);
        assert(args[2 * last + 1]@ == args[2 * pairs - 1]@);
        assert(flag(ADDRESS) =~= seq![0x2du8, 0x61u8]);
        assert(flag(PEER) =~= seq![0x2du8, 0x70u8]);
        assert(flag(ADDRESS)[1] != flag(PEER)[1]);
    }
}

/// A peer is named by `-p` and what follows it.
pub proof fn law_peers_follow_their_option(args: Seq<Vec<u8>>, at: int, peer: (Seq<u8>, u32))
    ensures
        peer_at(args, at, peer) <==> args[2 * at]@ == seq![0x2du8, 0x70u8] && peer_of(
            args[2 * at + 1]@,
        ) == Some(peer),
{
}

/// What `-s` asks for, and what a bare address does.
pub proof fn law_server_arguments(args: Seq<Vec<u8>>, mode: PeerMode)
    ensures
        mode matches PeerMode::Server { addr } ==> (asks_for(args, mode) <==> args.len() == 2
            && args[0]@ == seq![0x2du8, 0x73u8] && args[1]@ == addr@),
        mode matches PeerMode::Signaling { addr } ==> (asks_for(args, mode) <==> args.len() > 0
            && args[0]@ == addr@ && !(addr@.len() > 0 && addr@[0] == 0x2d)),
{
    assert(flag(SERVER) =~= seq![0x2du8, 0x73u8]);
}

/// What `-a` and `-p` ask for: one of the options, with the index that is returned, is `-a`, and the
/// own address follows it; all others are `-p`, and the peers follow them, in order, the one with the
/// index `p` among them.
pub proof fn law_manual_arguments_name_peers(
    args: Seq<Vec<u8>>,
    addr: Vec<u8>,
    peers: Vec<(Vec<u8>, u32)>,
    p: int,
) -> (a: int)
    requires
        asks_for(args, PeerMode::Manual { addr, peers }),
        0 <= p < peers@.len() || peers@.len() == 0,
    ensures
        args.len() == 2 * peers@.len() + 2,
        0 <= a <= peers@.len(),
        args[2 * a]@ == seq![0x2du8, 0x61u8],
        args[2 * a + 1]@ == addr@,
        0 <= p < a ==> args[2 * p]@ == seq![0x2du8, 0x70u8] && peer_of(args[2 * p + 1]@) == Some(
            (peers@[p].0@, peers@[p].1),
        ),
        a <= p < peers@.len() ==> args[2 * p + 2]@ == seq![0x2du8, 0x70u8] && peer_of(
            args[2 * p + 3]@,
        ) == Some((peers@[p].0@, peers@[p].1)),
{
    let named = peers_view(peers@);
    let a = lemma_named_pairs(args, args.len() / 2, Some(addr@), named);
    if peers@.len() > 0 {
        assert(named[p] == (peers@[p].0@, peers@[p].1));
    }
    a
}

/// Arguments that are laid out so do ask for that: one `-a` among any number of `-p`, at any place.
pub proof fn law_manual_arguments_are_understood(
    args: Seq<Vec<u8>>,
    addr: Vec<u8>,
    peers: Vec<(Vec<u8>, u32)>,
    a: int,
)
    requires
        args.len() == 2 * peers@.len() + 2,
        0 <= a <= peers@.len(),
        args[2 * a]@ == seq![0x2du8, 0x61u8],
        args[2 * a + 1]@ == addr@,
        forall|p: int|
            0 <= p < a ==> peer_at(args, p, ((#[trigger] peers@[p]).0@, peers@[p].1)),
        forall|p: int|
            a <= p < peers@.len() ==> peer_at(args, p + 1, ((#[trigger] peers@[p]).0@, peers@[p].1)),
    ensures
        asks_for(args, PeerMode::Manual { addr, peers }),
{
    let pairs = args.len() / 2;
    let named = peers_view(peers@);
    assert forall|p: int|
        #![trigger args[2 * p]]
        0 <= p < pairs && p != a implies args[2 * p]@ == seq![0x2du8, 0x70u8] && peer_of(
        args[2 * p + 1]@,
    ) is Some by {
        let q = if p < a {
            p
        } else {
            p - 1
        };
        assert(named[q] == (peers@[q].0@, peers@[q].1));
    }
    lemma_named_pairs_converse(args, pairs, a);
    let (own, found) = named_by(args, pairs)->0;
    let b = lemma_named_pairs(args, pairs, own, found);
    assert(a == b) by {
        if a != b {
            assert(args[2 * b]@ == seq![0x2du8, 0x70u8]);
            assert(seq![0x2du8, 0x70u8][1] != seq![0x2du8, 0x61u8][1]);
        }
    }
    assert(found =~= named) by {
        assert forall|p: int| 0 <= p < found.len() implies #[trigger] found[p] == named[p] by {
            assert(named[p] == (peers@[p].0@, peers@[p].1));
        }
    }
}

/// What a call of `parse_args` returns where the arguments ask for something: that, and no failure.
proof fn lemma_parse_args(args: &Vec<Vec<u8>>, mode: Option<PeerMode>, asked: PeerMode)
    requires
        call_ensures(parse_args, (args,), mode),
        asks_for(args@, asked),
    ensures
        mode is Some,
        asks_for(args@, mode->0),
{
    match mode {
        Some(found) => {
            assert(asks_for(args@, found));
        },
        None => {
            assert(!asks_for(args@, asked));
        },
    }
}

/// What a call of `parse_args` returns for `-s` and an address, and for a bare address: just what
/// they name.
pub proof fn law_parse_args_returns_the_server(args: &Vec<Vec<u8>>, mode: Option<PeerMode>)
    requires
        call_ensures(parse_args, (args,), mode),
    ensures
        args@.len() == 2 && args@[0]@ == seq![0x2du8, 0x73u8] ==> (mode matches Some(
            PeerMode::Server { addr },
        ) && addr@ == args@[1]@),
        args@.len() > 0 && !(args@[0]@.len() > 0 && args@[0]@[0] == 0x2d) ==> (mode matches Some(
            PeerMode::Signaling { addr },
        ) && addr@ == args@[0]@),
{
    if args@.len() == 2 && args@[0]@ == seq![0x2du8, 0x73u8] {
        let server = PeerMode::Server { addr: args@[1] };
        law_server_arguments(args@, server);
        lemma_parse_args(args, mode, server);
        law_arguments_are_unambiguous(args@, server, mode->0);
    }
    if args@.len() > 0 && !(args@[0]@.len() > 0 && args@[0]@[0] == 0x2d) {
        let signaling = PeerMode::Signaling { addr: args@[0] };
        law_server_arguments(args@, signaling);
        lemma_parse_args(args, mode, signaling);
        law_arguments_are_unambiguous(args@, signaling, mode->0);
    }
}

/// What a call of `parse_args` returns for one `-a`, at any place among any number of `-p`: the own
/// address, and the peers in order.
pub proof fn law_parse_args_returns_the_peers(
    args: &Vec<Vec<u8>>,
    given: Seq<Vec<u8>>,
    mode: Option<PeerMode>,
    addr: Vec<u8>,
    peers: Vec<(Vec<u8>, u32)>,
    a: int,
    p: int,
)
    requires
        call_ensures(parse_args, (args,), mode),
        args@ == given,
        given.len() == 2 * peers@.len() + 2,
        0 <= a <= peers@.len(),
        given[2 * a]@ == seq![0x2du8, 0x61u8],
        given[2 * a + 1]@ == addr@,
        forall|p: int|
            0 <= p < a ==> peer_at(given, p, ((#[trigger] peers@[p]).0@, peers@[p].1)),
        forall|p: int|
            a <= p < peers@.len() ==> peer_at(given, p + 1, ((#[trigger] peers@[p]).0@, peers@[p].1)),
    ensures
        mode matches Some(PeerMode::Manual { addr: own, peers: named }) && own@ == addr@
            && named@.len() == peers@.len() && (0 <= p < peers@.len() ==> named@[p].0@
            == peers@[p].0@ && named@[p].1 == peers@[p].1),
{
    law_manual_arguments_are_understood(given, addr, peers, a);
    let manual = PeerMode::Manual { addr, peers };
    lemma_parse_args(args, mode, manual);
    law_arguments_are_unambiguous(args@, manual, mode->0);
    if let Some(PeerMode::Manual { addr: own, peers: named }) = mode {
        assert(peers_view(named@).len() == named@.len());
        assert(peers_view(peers@).len() == peers@.len());
        if 0 <= p < peers@.len() {
            assert(peers_view(named@)[p] == (named@[p].0@, named@[p].1));
            assert(peers_view(peers@)[p] == (peers@[p].0@, peers@[p].1));
        }
    }
}

} // verus!
