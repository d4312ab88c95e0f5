//! The binary message decoder: parses the outer envelope of a proof blob
//! into raw messages — a compact-length-prefixed sequence of records, each
//! holding a little-endian nonce, a one-byte payload tag and a
//! length-prefixed payload — then decodes each payload against the fixed
//! schema its tag selects. Any malformed byte fails the whole batch:
//! no partial output, no state touched. Pure and stateless.

use vstd::prelude::*;

use crate::types::Balance;

verus! {

/// The byte sequences a list of byte vectors holds, in order.
pub open spec fn byte_seqs_of(s: Seq<Vec<u8>>) -> Seq<Seq<u8>>
    decreases s.len(),
{
    if s.len() == 0 {
        Seq::empty()
    } else {
        byte_seqs_of(s.drop_last()).push(s.last()@)
    }
}

/// The tag of a payload, one byte on the wire in declaration order.
#[derive(Clone, Copy, PartialEq, Eq, Structural, Debug)]
pub enum PayloadType {
    Lock,
    BurnAsset,
    PlanNewEra,
    EraPayout,
}

/// A fungible-token burn observed on the external chain.
#[derive(Debug)]
pub struct BurnAssetPayload {
    pub symbol: Vec<u8>,
    pub owner_id_in_appchain: Vec<u8>,
    pub receiver_id_in_near: Vec<u8>,
    pub amount: Balance,
}

/// The mathematical content of a [`BurnAssetPayload`].
#[verifier::ext_equal]
pub ghost struct BurnAssetPayloadView {
    pub symbol: Seq<u8>,
    pub owner_id_in_appchain: Seq<u8>,
    pub receiver_id_in_near: Seq<u8>,
    pub amount: Balance,
}

impl View for BurnAssetPayload {
    type V = BurnAssetPayloadView;

    open spec fn view(&self) -> BurnAssetPayloadView {
        BurnAssetPayloadView {
            symbol: self.symbol@,
            owner_id_in_appchain: self.owner_id_in_appchain@,
            receiver_id_in_near: self.receiver_id_in_near@,
            amount: self.amount,
        }
    }
}

/// A native-token lock observed on the external chain.
#[derive(Debug)]
pub struct LockPayload {
    pub owner_id_in_appchain: Vec<u8>,
    pub receiver_id_in_near: Vec<u8>,
    pub amount: Balance,
}

/// The mathematical content of a [`LockPayload`].
#[verifier::ext_equal]
pub ghost struct LockPayloadView {
    pub owner_id_in_appchain: Seq<u8>,
    pub receiver_id_in_near: Seq<u8>,
    pub amount: Balance,
}

impl View for LockPayload {
    type V = LockPayloadView;

    open spec fn view(&self) -> LockPayloadView {
        LockPayloadView {
            owner_id_in_appchain: self.owner_id_in_appchain@,
            receiver_id_in_near: self.receiver_id_in_near@,
            amount: self.amount,
        }
    }
}

/// The plan of a new era on the external chain.
#[derive(Clone, Copy, PartialEq, Eq, Structural, Debug)]
pub struct PlanNewEraPayload {
    pub new_planned_era: u32,
}

/// The conclusion of an era's payout on the external chain, with the
/// validators excluded from it.
#[derive(Debug)]
pub struct EraPayoutPayload {
    pub era: u32,
    pub payout: Balance,
    pub exclude: Vec<Vec<u8>>,
}

/// The mathematical content of an [`EraPayoutPayload`].
#[verifier::ext_equal]
pub ghost struct EraPayoutPayloadView {
    pub era: u32,
    pub payout: Balance,
    pub exclude: Seq<Seq<u8>>,
}

impl View for EraPayoutPayload {
    type V = EraPayoutPayloadView;

    open spec fn view(&self) -> EraPayoutPayloadView {
        EraPayoutPayloadView { era: self.era, payout: self.payout, exclude: byte_seqs_of(self.exclude@) }
    }
}

/// One decoded payload, tagged as on the wire.
#[derive(Debug)]
pub enum MessagePayload {
    BurnAsset(BurnAssetPayload),
    Lock(LockPayload),
    PlanNewEra(PlanNewEraPayload),
    EraPayout(EraPayoutPayload),
}

/// A raw entry of the outer envelope: not yet decoded per its tag.
#[derive(Debug)]
pub struct RawMessage {
    pub nonce: u64,
    pub payload_type: PayloadType,
    pub payload: Vec<u8>,
}

/// The mathematical content of a [`RawMessage`].
#[verifier::ext_equal]
pub ghost struct RawMessageView {
    pub nonce: u64,
    pub payload_type: PayloadType,
    pub payload: Seq<u8>,
}

impl View for RawMessage {
    type V = RawMessageView;

    open spec fn view(&self) -> RawMessageView {
        RawMessageView {
            nonce: self.nonce,
            payload_type: self.payload_type,
            payload: self.payload@,
        }
    }
}

/// A typed domain event derived from one raw message.
#[derive(Debug)]
pub enum AppchainEvent {
    /// A bridged fungible token was burnt on the external chain.
    NearFungibleTokenBurnt {
        symbol: Vec<u8>,
        owner_id_in_appchain: Vec<u8>,
        receiver_id_in_near: Vec<u8>,
        amount: Balance,
    },
    /// The external chain's native token was locked.
    NativeTokenLocked {
        owner_id_in_appchain: Vec<u8>,
        receiver_id_in_near: Vec<u8>,
        amount: Balance,
    },
    /// The external chain planned to switch to a new era.
    EraSwitchPlaned { era_number: u64 },
    /// The external chain concluded an era's reward.
    EraRewardConcluded { era_number: u64, unprofitable_validator_ids: Vec<Vec<u8>> },
}

/// The mathematical content of an [`AppchainEvent`].
#[verifier::ext_equal]
pub ghost enum AppchainEventView {
    NearFungibleTokenBurnt {
        symbol: Seq<u8>,
        owner_id_in_appchain: Seq<u8>,
        receiver_id_in_near: Seq<u8>,
        amount: Balance,
    },
    NativeTokenLocked {
        owner_id_in_appchain: Seq<u8>,
        receiver_id_in_near: Seq<u8>,
        amount: Balance,
    },
    EraSwitchPlaned { era_number: u64 },
    EraRewardConcluded { era_number: u64, unprofitable_validator_ids: Seq<Seq<u8>> },
}

impl View for AppchainEvent {
    type V = AppchainEventView;

    open spec fn view(&self) -> AppchainEventView {
        match self {
            AppchainEvent::NearFungibleTokenBurnt {
                symbol,
                owner_id_in_appchain,
                receiver_id_in_near,
                amount,
            } => AppchainEventView::NearFungibleTokenBurnt {
                symbol: symbol@,
                owner_id_in_appchain: owner_id_in_appchain@,
                receiver_id_in_near: receiver_id_in_near@,
                amount: *amount,
            },
            AppchainEvent::NativeTokenLocked {
                owner_id_in_appchain,
                receiver_id_in_near,
                amount,
            } => AppchainEventView::NativeTokenLocked {
                owner_id_in_appchain: owner_id_in_appchain@,
                receiver_id_in_near: receiver_id_in_near@,
                amount: *amount,
            },
            AppchainEvent::EraSwitchPlaned { era_number } => AppchainEventView::EraSwitchPlaned {
                era_number: *era_number,
            },
            AppchainEvent::EraRewardConcluded { era_number, unprofitable_validator_ids } =>
                AppchainEventView::EraRewardConcluded {
                era_number: *era_number,
                unprofitable_validator_ids: byte_seqs_of(unprofitable_validator_ids@),
            },
        }
    }
}

/// A decoded message: a domain event with the nonce that orders it.
#[derive(Debug)]
pub struct AppchainMessage {
    pub appchain_event: AppchainEvent,
    pub nonce: u32,
}

/// The mathematical content of an [`AppchainMessage`].
#[verifier::ext_equal]
pub ghost struct AppchainMessageView {
    pub appchain_event: AppchainEventView,
    pub nonce: u32,
}

impl View for AppchainMessage {
    type V = AppchainMessageView;

    open spec fn view(&self) -> AppchainMessageView {
        AppchainMessageView { appchain_event: self.appchain_event@, nonce: self.nonce }
    }
}

/// Why a decode call rejected the whole batch.
#[derive(Clone, Copy, PartialEq, Eq, Structural, Debug)]
pub enum DecodeError {
    /// The outer envelope is malformed.
    MalformedEnvelope,
    /// A payload does not match the schema its tag selects.
    MalformedPayload,
}

/// The value of a little-endian byte sequence.
pub open spec fn le_to_nat(s: Seq<u8>) -> nat
    decreases s.len(),
{
    if s.len() == 0 {
        0
    } else {
        (s[0] + 256 * le_to_nat(s.drop_first())) as nat
    }
}

/// The `n`-byte little-endian form of `v` (modulo 256 to the `n`).
pub open spec fn nat_to_le(v: nat, n: nat) -> Seq<u8>
    decreases n,
{
    if n == 0 {
        Seq::empty()
    } else {
        seq![(v % 256) as u8].add(nat_to_le(v / 256, (n - 1) as nat))
    }
}

/// 256 to the `n`: the count of `n`-byte values.
pub open spec fn pow256(n: nat) -> nat
    decreases n,
{
    if n == 0 {
        1
    } else {
        256 * pow256((n - 1) as nat)
    }
}

/// Little-endian encoding and decoding invert each other, and a read
/// value always fits its width.
pub proof fn lemma_le_roundtrip(v: nat, n: nat)
    requires
        v < pow256(n),
    ensures
        nat_to_le(v, n).len() == n,
        le_to_nat(nat_to_le(v, n)) == v,
    decreases n,
{
    if n > 0 {
        assert(v / 256 < pow256((n - 1) as nat)) by (nonlinear_arith)
            requires
                v < 256 * pow256((n - 1) as nat),
        ;
        lemma_le_roundtrip(v / 256, (n - 1) as nat);
        let s = nat_to_le(v, n);
        assert(s.drop_first() =~= nat_to_le(v / 256, (n - 1) as nat));
        assert(v % 256 + 256 * (v / 256) == v) by (nonlinear_arith);
    }
}

/// A little-endian read is bounded by its width.
pub proof fn lemma_le_bound(s: Seq<u8>)
    ensures
        le_to_nat(s) < pow256(s.len()),
    decreases s.len(),
{
    if s.len() > 0 {
        lemma_le_bound(s.drop_first());
        assert(s[0] + 256 * le_to_nat(s.drop_first()) < 256 * pow256((s.len() - 1) as nat))
            by (nonlinear_arith)
            requires
                s[0] < 256,
                le_to_nat(s.drop_first()) < pow256((s.len() - 1) as nat),
        ;
    }
}


/// The values of small powers of 256, written out for the proofs.
pub proof fn lemma_pow256_values()
    ensures
        pow256(1) == 0x100,
        pow256(2) == 0x1_0000,
        pow256(4) == 0x1_0000_0000,
        pow256(8) == 0x1_0000_0000_0000_0000,
        pow256(16) == 0x1_0000_0000_0000_0000_0000_0000_0000_0000,
{
    assert(pow256(0) == 1);
    assert(pow256(1) == 0x100);
    assert(pow256(2) == 0x1_0000);
    assert(pow256(3) == 0x100_0000);
    assert(pow256(4) == 0x1_0000_0000);
    assert(pow256(5) == 0x100_0000_0000);
    assert(pow256(6) == 0x1_0000_0000_0000);
    assert(pow256(7) == 0x100_0000_0000_0000);
    assert(pow256(8) == 0x1_0000_0000_0000_0000);
    assert(pow256(9) == 0x100_0000_0000_0000_0000);
    assert(pow256(10) == 0x1_0000_0000_0000_0000_0000);
    assert(pow256(11) == 0x100_0000_0000_0000_0000_0000);
    assert(pow256(12) == 0x1_0000_0000_0000_0000_0000_0000);
    assert(pow256(13) == 0x100_0000_0000_0000_0000_0000_0000);
    assert(pow256(14) == 0x1_0000_0000_0000_0000_0000_0000_0000);
    assert(pow256(15) == 0x100_0000_0000_0000_0000_0000_0000_0000);
    assert(pow256(16) == 0x1_0000_0000_0000_0000_0000_0000_0000_0000);
}

/// Powers of 256 grow with the exponent.
pub proof fn lemma_pow256_mono(a: nat, b: nat)
    requires
        a <= b,
    ensures
        pow256(a) <= pow256(b),
        pow256(a) >= 1,
    decreases b,
{
    if a < b {
        lemma_pow256_mono(a, (b - 1) as nat);
    } else if b > 0 {
        lemma_pow256_mono((a - 1) as nat, (b - 1) as nat);
    }
}

/// Reads an `n`-byte little-endian unsigned value at `p`.
pub open spec fn dec_uint(s: Seq<u8>, p: int, n: int) -> Option<(nat, int)> {
    if 0 <= p && 0 <= n && p + n <= s.len() {
        Some((le_to_nat(s.subrange(p, p + n)), p + n))
    } else {
        None
    }
}

/// Reads a canonical compact-encoded length at `p`: the low two bits of
/// the first byte select a one, two or four byte form, or a trailing
/// four-byte form; a value encoded in a longer form than it needs is
/// rejected.
pub open spec fn dec_compact(s: Seq<u8>, p: int) -> Option<(nat, int)> {
    if !(0 <= p < s.len()) {
        None
    } else {
        let b = s[p] as nat;
        if b % 4 == 0 {
            Some((b / 4, p + 1))
        } else if b % 4 == 1 {
            match dec_uint(s, p, 2) {
                None => None,
                Some((w, q)) => {
                    let v = w / 4;
                    if 64 <= v <= 16383 {
                        Some((v, q))
                    } else {
                        None
                    }
                },
            }
        } else if b % 4 == 2 {
            match dec_uint(s, p, 4) {
                None => None,
                Some((w, q)) => {
                    let v = w / 4;
                    if 16384 <= v <= 0x3FFF_FFFF {
                        Some((v, q))
                    } else {
                        None
                    }
                },
            }
        } else {
            if b / 4 == 0 {
                match dec_uint(s, p + 1, 4) {
                    None => None,
                    Some((v, q)) => {
                        if v > 0x3FFF_FFFF {
                            Some((v, q))
                        } else {
                            None
                        }
                    },
                }
            } else {
                None
            }
        }
    }
}

/// Reads a compact-length-prefixed byte string at `p`.
pub open spec fn dec_blob(s: Seq<u8>, p: int) -> Option<(Seq<u8>, int)> {
    match dec_compact(s, p) {
        None => None,
        Some((n, q)) => {
            if q + n <= s.len() {
                Some((s.subrange(q, q + n), q + n))
            } else {
                None
            }
        },
    }
}

/// Reads a one-byte payload tag at `p`.
pub open spec fn dec_payload_type(s: Seq<u8>, p: int) -> Option<(PayloadType, int)> {
    if 0 <= p < s.len() {
        if s[p] == 0 {
            Some((PayloadType::Lock, p + 1))
        } else if s[p] == 1 {
            Some((PayloadType::BurnAsset, p + 1))
        } else if s[p] == 2 {
            Some((PayloadType::PlanNewEra, p + 1))
        } else if s[p] == 3 {
            Some((PayloadType::EraPayout, p + 1))
        } else {
            None
        }
    } else {
        None
    }
}

/// Reads one raw message at `p`: nonce, tag, payload.
pub open spec fn dec_raw_message(s: Seq<u8>, p: int) -> Option<(RawMessageView, int)> {
    match dec_uint(s, p, 8) {
        None => None,
        Some((nonce, p1)) => match dec_payload_type(s, p1) {
            None => None,
            Some((t, p2)) => match dec_blob(s, p2) {
                None => None,
                Some((payload, p3)) => Some(
                    (RawMessageView { nonce: nonce as u64, payload_type: t, payload }, p3),
                ),
            },
        },
    }
}

/// Reads `count` raw messages in order, starting at `p`.
pub open spec fn dec_raw_messages(s: Seq<u8>, p: int, count: nat) -> Option<
    (Seq<RawMessageView>, int),
>
    decreases count,
{
    if count == 0 {
        Some((Seq::empty(), p))
    } else {
        match dec_raw_message(s, p) {
            None => None,
            Some((m, q)) => match dec_raw_messages(s, q, (count - 1) as nat) {
                None => None,
                Some((ms, r)) => Some((seq![m].add(ms), r)),
            },
        }
    }
}

/// Decodes the outer envelope: a compact count followed by that many raw
/// messages; trailing bytes are ignored.
pub open spec fn spec_decode_envelope(s: Seq<u8>) -> Option<Seq<RawMessageView>> {
    match dec_compact(s, 0) {
        None => None,
        Some((count, p)) => match dec_raw_messages(s, p, count) {
            None => None,
            Some((ms, _)) => Some(ms),
        },
    }
}

/// Reads a payload-layer byte string at `p`: a four-byte little-endian
/// length followed by that many bytes.
pub open spec fn dec_b_blob(s: Seq<u8>, p: int) -> Option<(Seq<u8>, int)> {
    match dec_uint(s, p, 4) {
        None => None,
        Some((n, q)) => {
            if q + n <= s.len() {
                Some((s.subrange(q, q + n), q + n))
            } else {
                None
            }
        },
    }
}

/// Reads `count` payload-layer byte strings in order, starting at `p`.
pub open spec fn dec_b_blobs(s: Seq<u8>, p: int, count: nat) -> Option<(Seq<Seq<u8>>, int)>
    decreases count,
{
    if count == 0 {
        Some((Seq::empty(), p))
    } else {
        match dec_b_blob(s, p) {
            None => None,
            Some((blob, q)) => match dec_b_blobs(s, q, (count - 1) as nat) {
                None => None,
                Some((blobs, r)) => Some((seq![blob].add(blobs), r)),
            },
        }
    }
}

/// Decodes a lock payload: owner, receiver, amount.
pub open spec fn spec_dec_lock_payload(s: Seq<u8>) -> Option<LockPayloadView> {
    match dec_b_blob(s, 0) {
        None => None,
        Some((owner, p1)) => match dec_b_blob(s, p1) {
            None => None,
            Some((receiver, p2)) => match dec_uint(s, p2, 16) {
                None => None,
                Some((amount, _)) => Some(
                    LockPayloadView {
                        owner_id_in_appchain: owner,
                        receiver_id_in_near: receiver,
                        amount: amount as Balance,
                    },
                ),
            },
        },
    }
}

/// Decodes a burn payload: symbol, owner, receiver, amount.
pub open spec fn spec_dec_burn_asset_payload(s: Seq<u8>) -> Option<BurnAssetPayloadView> {
    match dec_b_blob(s, 0) {
        None => None,
        Some((symbol, p1)) => match dec_b_blob(s, p1) {
            None => None,
            Some((owner, p2)) => match dec_b_blob(s, p2) {
                None => None,
                Some((receiver, p3)) => match dec_uint(s, p3, 16) {
                    None => None,
                    Some((amount, _)) => Some(
                        BurnAssetPayloadView {
                            symbol,
                            owner_id_in_appchain: owner,
                            receiver_id_in_near: receiver,
                            amount: amount as Balance,
                        },
                    ),
                },
            },
        },
    }
}

/// Decodes a plan-new-era payload: the planned era number.
pub open spec fn spec_dec_plan_new_era_payload(s: Seq<u8>) -> Option<PlanNewEraPayload> {
    match dec_uint(s, 0, 4) {
        None => None,
        Some((v, _)) => Some(PlanNewEraPayload { new_planned_era: v as u32 }),
    }
}

/// Decodes an era-payout payload: era, payout, excluded validators.
pub open spec fn spec_dec_era_payout_payload(s: Seq<u8>) -> Option<EraPayoutPayloadView> {
    match dec_uint(s, 0, 4) {
        None => None,
        Some((era, p1)) => match dec_uint(s, p1, 16) {
            None => None,
            Some((payout, p2)) => match dec_uint(s, p2, 4) {
                None => None,
                Some((count, p3)) => match dec_b_blobs(s, p3, count) {
                    None => None,
                    Some((exclude, _)) => Some(
                        EraPayoutPayloadView {
                            era: era as u32,
                            payout: payout as Balance,
                            exclude,
                        },
                    ),
                },
            },
        },
    }
}

/// The typed message one raw message decodes to, per its tag; the nonce is
/// narrowed to its low 32 bits.
pub open spec fn spec_message_of_raw(m: RawMessageView) -> Option<AppchainMessageView> {
    match m.payload_type {
        PayloadType::Lock => match spec_dec_lock_payload(m.payload) {
            None => None,
            Some(p) => Some(
                AppchainMessageView {
                    nonce: m.nonce as u32,
                    appchain_event: AppchainEventView::NativeTokenLocked {
                        owner_id_in_appchain: p.owner_id_in_appchain,
                        receiver_id_in_near: p.receiver_id_in_near,
                        amount: p.amount,
                    },
                },
            ),
        },
        PayloadType::BurnAsset => match spec_dec_burn_asset_payload(m.payload) {
            None => None,
            Some(p) => Some(
                AppchainMessageView {
                    nonce: m.nonce as u32,
                    appchain_event: AppchainEventView::NearFungibleTokenBurnt {
                        symbol: p.symbol,
                        owner_id_in_appchain: p.owner_id_in_appchain,
                        receiver_id_in_near: p.receiver_id_in_near,
                        amount: p.amount,
                    },
                },
            ),
        },
        PayloadType::PlanNewEra => match spec_dec_plan_new_era_payload(m.payload) {
            None => None,
            Some(p) => Some(
                AppchainMessageView {
                    nonce: m.nonce as u32,
                    appchain_event: AppchainEventView::EraSwitchPlaned {
                        era_number: p.new_planned_era as u64,
                    },
                },
            ),
        },
        PayloadType::EraPayout => match spec_dec_era_payout_payload(m.payload) {
            None => None,
            Some(p) => Some(
                AppchainMessageView {
                    nonce: m.nonce as u32,
                    appchain_event: AppchainEventView::EraRewardConcluded {
                        era_number: p.era as u64,
                        unprofitable_validator_ids: p.exclude,
                    },
                },
            ),
        },
    }
}

/// Decodes every raw message of a batch, in order; one malformed payload
/// fails them all.
pub open spec fn spec_decode_messages(raws: Seq<RawMessageView>) -> Option<Seq<AppchainMessageView>>
    decreases raws.len(),
{
    if raws.len() == 0 {
        Some(Seq::empty())
    } else {
        match spec_decode_messages(raws.drop_last()) {
            None => None,
            Some(ms) => match spec_message_of_raw(raws.last()) {
                None => None,
                Some(m) => Some(ms.push(m)),
            },
        }
    }
}

/// What `decode` yields on any input: the decoded batch, or the error of
/// the layer that rejected it.
pub open spec fn spec_decode(s: Seq<u8>) -> Result<Seq<AppchainMessageView>, DecodeError> {
    match spec_decode_envelope(s) {
        None => Err(DecodeError::MalformedEnvelope),
        Some(raws) => match spec_decode_messages(raws) {
            None => Err(DecodeError::MalformedPayload),
            Some(ms) => Ok(ms),
        },
    }
}

/// One undecodable raw message poisons the whole batch.
proof fn lemma_decode_messages_none(raws: Seq<RawMessageView>, i: int)
    requires
        0 <= i < raws.len(),
        spec_message_of_raw(raws[i]) is None,
    ensures
        spec_decode_messages(raws) is None,
    decreases raws.len(),
{
    if i < raws.len() - 1 {
        lemma_decode_messages_none(raws.drop_last(), i);
    }
}


/// Reads an `n`-byte little-endian unsigned value at `p`, as `dec_uint`
/// says.
fn read_uint(buf: &Vec<u8>, p: usize, n: usize) -> (r: Option<(u128, usize)>)
    requires
        n <= 16,
    ensures
        (match dec_uint(buf@, p as int, n as int) {
            Some((v, q)) => r == Some((v as u128, q as usize)) && v < pow256(16),
            None => r is None,
        }),
{
    proof {
        lemma_pow256_values();
    }
    if p > buf.len() || n > buf.len() - p {
        return None;
    }
    let buf_len = buf.len();
    let ghost field: Seq<u8> = buf@.subrange(p as int, p as int + n as int);
    proof {
        lemma_le_bound(field);
        lemma_pow256_mono(field.len() as nat, 16);
    }
    let mut acc: u128 = 0;
    let mut i: usize = 0;
    while i < n
        invariant
            i <= n,
            n <= 16,
            p + n <= buf@.len(),
            buf@.len() <= usize::MAX,
            field == buf@.subrange(p as int, p as int + n as int),
            acc as nat == le_to_nat(field.subrange((n - i) as int, n as int)),
            acc < pow256(i as nat),
        decreases n - i,
    {
        let b = buf[p + n - 1 - i];
        proof {
            let tail = field.subrange((n - i) as int, n as int);
            let ext = field.subrange((n - i - 1) as int, n as int);
            assert(ext.drop_first() =~= tail);
            assert(ext[0] == b);
            lemma_pow256_values();
            lemma_pow256_mono((i + 1) as nat, 16);
            assert(b + 256 * (acc as nat) < pow256((i + 1) as nat)) by (nonlinear_arith)
                requires
                    (b as nat) < 256,
                    (acc as nat) < pow256(i as nat),
                    pow256((i + 1) as nat) == 256 * pow256(i as nat),
            ;
        }
        acc = (b as u128) + 256 * acc;
        i += 1;
    }
    proof {
        assert(field.subrange(0, n as int) =~= field);
    }
    Some((acc, p + n))
}

/// Reads a canonical compact length at `p`, as `dec_compact` says.
fn read_compact(buf: &Vec<u8>, p: usize) -> (r: Option<(u32, usize)>)
    ensures
        (match dec_compact(buf@, p as int) {
            Some((v, q)) => r == Some((v as u32, q as usize)) && v <= u32::MAX,
            None => r is None,
        }),
{
    proof {
        lemma_pow256_values();
    }
    if p >= buf.len() {
        return None;
    }
    let b = buf[p];
    let mode = b % 4;
    if mode == 0 {
        Some(((b / 4) as u32, p + 1))
    } else if mode == 1 {
        match read_uint(buf, p, 2) {
            None => None,
            Some((w, q)) => {
                let v = w / 4;
                proof {
                    lemma_le_bound(buf@.subrange(p as int, p as int + 2));
                }
                if 64 <= v && v <= 16383 {
                    Some((v as u32, q))
                } else {
                    None
                }
            },
        }
    } else if mode == 2 {
        match read_uint(buf, p, 4) {
            None => None,
            Some((w, q)) => {
                let v = w / 4;
                proof {
                    lemma_le_bound(buf@.subrange(p as int, p as int + 4));
                }
                if 16384 <= v && v <= 0x3FFF_FFFF {
                    Some((v as u32, q))
                } else {
                    None
                }
            },
        }
    } else {
        if b / 4 == 0 {
            match read_uint(buf, p + 1, 4) {
                None => None,
                Some((v, q)) => {
                    proof {
                        lemma_le_bound(buf@.subrange(p as int + 1, p as int + 5));
                    }
                    if v > 0x3FFF_FFFF {
                        Some((v as u32, q))
                    } else {
                        None
                    }
                },
            }
        } else {
            None
        }
    }
}

/// Copies `n` bytes at `p`.
fn read_bytes(buf: &Vec<u8>, p: usize, n: usize) -> (r: Vec<u8>)
    requires
        p + n <= buf@.len(),
    ensures
        r@ == buf@.subrange(p as int, p as int + n as int),
{
    let buf_len = buf.len();
    let mut out: Vec<u8> = Vec::new();
    let mut i: usize = 0;
    while i < n
        invariant
            i <= n,
            p + n <= buf@.len(),
            buf@.len() <= usize::MAX,
            out@ == buf@.subrange(p as int, p as int + i as int),
        decreases n - i,
    {
        out.push(buf[p + i]);
        proof {
            assert(out@ =~= buf@.subrange(p as int, p as int + i as int + 1));
        }
        i += 1;
    }
    out
}

/// Reads a compact-length-prefixed byte string at `p`, as `dec_blob`
/// says.
fn read_blob(buf: &Vec<u8>, p: usize) -> (r: Option<(Vec<u8>, usize)>)
    ensures
        (match dec_blob(buf@, p as int) {
            Some((bytes, q)) => {
                &&& r is Some
                &&& r.unwrap().0@ == bytes
                &&& r.unwrap().1 == q
            },
            None => r is None,
        }),
{
    match read_compact(buf, p) {
        None => None,
        Some((n, q)) => {
            if (n as u64) > (buf.len() - q) as u64 {
                None
            } else {
                let bytes = read_bytes(buf, q, n as usize);
                Some((bytes, q + n as usize))
            }
        },
    }
}

/// Reads a payload-layer byte string at `p`, as `dec_b_blob` says.
fn read_b_blob(buf: &Vec<u8>, p: usize) -> (r: Option<(Vec<u8>, usize)>)
    ensures
        (match dec_b_blob(buf@, p as int) {
            Some((bytes, q)) => {
                &&& r is Some
                &&& r.unwrap().0@ == bytes
                &&& r.unwrap().1 == q
            },
            None => r is None,
        }),
{
    match read_uint(buf, p, 4) {
        None => None,
        Some((n, q)) => {
            proof {
                lemma_le_bound(buf@.subrange(p as int, p as int + 4));
                lemma_pow256_values();
            }
            if n > (buf.len() - q) as u128 {
                None
            } else {
                let bytes = read_bytes(buf, q, n as usize);
                Some((bytes, q + n as usize))
            }
        },
    }
}

/// Reads one raw envelope entry at `p`, as `dec_raw_message` says.
fn read_raw_message(buf: &Vec<u8>, p: usize) -> (r: Option<(RawMessage, usize)>)
    ensures
        (match dec_raw_message(buf@, p as int) {
            Some((m, q)) => {
                &&& r is Some
                &&& r.unwrap().0@ == m
                &&& r.unwrap().1 == q
            },
            None => r is None,
        }),
{
    match read_uint(buf, p, 8) {
        None => None,
        Some((nonce, p1)) => {
            proof {
                lemma_le_bound(buf@.subrange(p as int, p as int + 8));
                lemma_pow256_values();
            }
            if p1 >= buf.len() {
                return None;
            }
            let tag_byte = buf[p1];
            let payload_type = if tag_byte == 0 {
                PayloadType::Lock
            } else if tag_byte == 1 {
                PayloadType::BurnAsset
            } else if tag_byte == 2 {
                PayloadType::PlanNewEra
            } else if tag_byte == 3 {
                PayloadType::EraPayout
            } else {
                return None;
            };
            match read_blob(buf, p1 + 1) {
                None => None,
                Some((payload, p3)) => Some(
                    (RawMessage { nonce: nonce as u64, payload_type, payload }, p3),
                ),
            }
        },
    }
}

/// Decodes a lock payload, as `spec_dec_lock_payload` says.
pub fn decode_lock_payload(payload: &Vec<u8>) -> (r: Option<LockPayload>)
    ensures
        (match spec_dec_lock_payload(payload@) {
            Some(v) => r is Some && r.unwrap()@ == v,
            None => r is None,
        }),
{
    match read_b_blob(payload, 0) {
        None => None,
        Some((owner, p1)) => match read_b_blob(payload, p1) {
            None => None,
            Some((receiver, p2)) => match read_uint(payload, p2, 16) {
                None => None,
                Some((amount, _)) => Some(
                    LockPayload {
                        owner_id_in_appchain: owner,
                        receiver_id_in_near: receiver,
                        amount,
                    },
                ),
            },
        },
    }
}

/// Decodes a burn payload, as `spec_dec_burn_asset_payload` says.
pub fn decode_burn_asset_payload(payload: &Vec<u8>) -> (r: Option<BurnAssetPayload>)
    ensures
        (match spec_dec_burn_asset_payload(payload@) {
            Some(v) => r is Some && r.unwrap()@ == v,
            None => r is None,
        }),
{
    match read_b_blob(payload, 0) {
        None => None,
        Some((symbol, p1)) => match read_b_blob(payload, p1) {
            None => None,
            Some((owner, p2)) => match read_b_blob(payload, p2) {
                None => None,
                Some((receiver, p3)) => match read_uint(payload, p3, 16) {
                    None => None,
                    Some((amount, _)) => Some(
                        BurnAssetPayload {
                            symbol,
                            owner_id_in_appchain: owner,
                            receiver_id_in_near: receiver,
                            amount,
                        },
                    ),
                },
            },
        },
    }
}

/// Decodes a plan-new-era payload, as `spec_dec_plan_new_era_payload`
/// says.
pub fn decode_plan_new_era_payload(payload: &Vec<u8>) -> (r: Option<PlanNewEraPayload>)
    ensures
        (match spec_dec_plan_new_era_payload(payload@) {
            Some(v) => r == Some(v),
            None => r is None,
        }),
{
    match read_uint(payload, 0, 4) {
        None => None,
        Some((v, _)) => {
            proof {
                lemma_le_bound(payload@.subrange(0, 4));
                lemma_pow256_values();
            }
            Some(PlanNewEraPayload { new_planned_era: v as u32 })
        },
    }
}

/// Decodes an era-payout payload, as `spec_dec_era_payout_payload` says.
pub fn decode_era_payout_payload(payload: &Vec<u8>) -> (r: Option<EraPayoutPayload>)
    ensures
        (match spec_dec_era_payout_payload(payload@) {
            Some(v) => r is Some && r.unwrap()@ == v,
            None => r is None,
        }),
{
    let era_read = read_uint(payload, 0, 4);
    if era_read.is_none() {
        return None;
    }
    let (era, p1) = era_read.unwrap();
    proof {
        lemma_le_bound(payload@.subrange(0, 4));
        lemma_pow256_values();
    }
    let payout_read = read_uint(payload, p1, 16);
    if payout_read.is_none() {
        return None;
    }
    let (payout, p2) = payout_read.unwrap();
    let count_read = read_uint(payload, p2, 4);
    if count_read.is_none() {
        return None;
    }
    let (count, p3) = count_read.unwrap();
    proof {
        lemma_le_bound(payload@.subrange(p2 as int, p2 as int + 4));
    }
    let count32: u32 = count as u32;
    let mut exclude: Vec<Vec<u8>> = Vec::new();
    let mut p: usize = p3;
    let mut i: u32 = 0;
    while i < count32
        invariant
            i <= count32,
            dec_uint(payload@, 0, 4) == Some(((era as nat), p1 as int)),
            dec_uint(payload@, p1 as int, 16) == Some(((payout as nat), p2 as int)),
            dec_uint(payload@, p2 as int, 4) == Some(((count as nat), p3 as int)),
            count32 as nat == count as nat,
            era < pow256(4),
            (match dec_b_blobs(payload@, p3 as int, count32 as nat) {
                Some((all, q)) => dec_b_blobs(payload@, p as int, (count32 - i) as nat) is Some
                    && all == byte_seqs_of(exclude@).add(
                    dec_b_blobs(payload@, p as int, (count32 - i) as nat).unwrap().0,
                ) && q == dec_b_blobs(payload@, p as int, (count32 - i) as nat).unwrap().1,
                None => dec_b_blobs(payload@, p as int, (count32 - i) as nat) is None,
            }),
        decreases count32 - i,
    {
        let blob_read = read_b_blob(payload, p);
        match blob_read {
            None => {
                return None;
            },
            Some((blob, q)) => {
                let ghost prev: Seq<Vec<u8>> = exclude@;
                let ghost before: Seq<Seq<u8>> = byte_seqs_of(prev);
                let ghost blob_view: Seq<u8> = blob@;
                exclude.push(blob);
                proof {
                    assert(exclude@.drop_last() =~= prev);
                    assert(byte_seqs_of(exclude@) == before.push(blob_view));
                    assert(before.push(blob@).add(
                        dec_b_blobs(payload@, q as int, (count32 - i - 1) as nat).unwrap().0,
                    ) =~= before.add(seq![blob@].add(
                        dec_b_blobs(payload@, q as int, (count32 - i - 1) as nat).unwrap().0,
                    )));
                }
                p = q;
            },
        }
        i += 1;
    }
    proof {
        assert(byte_seqs_of(exclude@).add(Seq::<Seq<u8>>::empty()) =~= byte_seqs_of(exclude@));
    }
    Some(EraPayoutPayload { era: era as u32, payout, exclude })
}


/// The views a list of raw messages holds, in order.
pub open spec fn views_of_raw(s: Seq<RawMessage>) -> Seq<RawMessageView>
    decreases s.len(),
{
    if s.len() == 0 {
        Seq::empty()
    } else {
        views_of_raw(s.drop_last()).push(s.last()@)
    }
}

/// The views a list of decoded messages holds, in order.
pub open spec fn views_of_messages(s: Seq<AppchainMessage>) -> Seq<AppchainMessageView>
    decreases s.len(),
{
    if s.len() == 0 {
        Seq::empty()
    } else {
        views_of_messages(s.drop_last()).push(s.last()@)
    }
}

/// The views of a raw-message list line up with its entries.
proof fn lemma_views_of_raw(s: Seq<RawMessage>)
    ensures
        views_of_raw(s).len() == s.len(),
        forall|k: int| 0 <= k < s.len() ==> #[trigger] views_of_raw(s)[k] == s[k]@,
    decreases s.len(),
{
    if s.len() > 0 {
        lemma_views_of_raw(s.drop_last());
        assert forall|k: int| 0 <= k < s.len() implies #[trigger] views_of_raw(s)[k] == s[k]@ by {
            if k < s.len() - 1 {
                assert(s.drop_last()[k] == s[k]);
            }
        }
    }
}

/// Decodes a proof blob into its typed domain events, as [`spec_decode`]
/// says: the whole batch in input order, or the error of the layer that
/// rejected it — with nothing partial.
#[verifier::rlimit(60)]
pub fn decode_appchain_messages(encoded_message: &Vec<u8>) -> (r: Result<
    Vec<AppchainMessage>,
    DecodeError,
>)
    ensures
        (match spec_decode(encoded_message@) {
            Ok(ms) => r is Ok && views_of_messages(r.unwrap()@) == ms,
            Err(e) => r == Err::<Vec<AppchainMessage>, DecodeError>(e),
        }),
{
    let count_read = read_compact(encoded_message, 0);
    if count_read.is_none() {
        return Err(DecodeError::MalformedEnvelope);
    }
    let (count, start) = count_read.unwrap();
    let mut raws: Vec<RawMessage> = Vec::new();
    let mut p: usize = start;
    let mut i: u32 = 0;
    while i < count
        invariant
            i <= count,
            dec_compact(encoded_message@, 0) == Some(((count as nat), start as int)),
            (match dec_raw_messages(encoded_message@, start as int, count as nat) {
                Some((all, q)) => dec_raw_messages(
                    encoded_message@,
                    p as int,
                    (count - i) as nat,
                ) is Some && all == views_of_raw(raws@).add(
                    dec_raw_messages(encoded_message@, p as int, (count - i) as nat).unwrap().0,
                ) && q == dec_raw_messages(
                    encoded_message@,
                    p as int,
                    (count - i) as nat,
                ).unwrap().1,
                None => dec_raw_messages(encoded_message@, p as int, (count - i) as nat) is None,
            }),
        decreases count - i,
    {
        let next = read_raw_message(encoded_message, p);
        match next {
            None => {
                return Err(DecodeError::MalformedEnvelope);
            },
            Some((m, q)) => {
                let ghost prev: Seq<RawMessage> = raws@;
                let ghost before: Seq<RawMessageView> = views_of_raw(prev);
                let ghost m_view: RawMessageView = m@;
                raws.push(m);
                proof {
                    assert(raws@.drop_last() =~= prev);
                    assert(views_of_raw(raws@) == before.push(m_view));
                    assert(before.push(m_view).add(
                        dec_raw_messages(encoded_message@, q as int, (count - i - 1) as nat)
                            .unwrap().0,
                    ) =~= before.add(seq![m_view].add(
                        dec_raw_messages(encoded_message@, q as int, (count - i - 1) as nat)
                            .unwrap().0,
                    )));
                }
                p = q;
            },
        }
        i += 1;
    }
    proof {
        assert(views_of_raw(raws@).add(Seq::<RawMessageView>::empty()) =~= views_of_raw(raws@));
    }
    let ghost raw_views: Seq<RawMessageView> = views_of_raw(raws@);
    proof {
        lemma_views_of_raw(raws@);
    }
    // Decode each raw message per its tag.
    let mut messages: Vec<AppchainMessage> = Vec::new();
    let n = raws.len();
    let mut j: usize = 0;
    while j < n
        invariant
            j <= n,
            n == raws@.len(),
            raw_views == views_of_raw(raws@),
            raw_views.len() == n,
            forall|k: int| 0 <= k < n ==> #[trigger] raw_views[k] == raws@[k]@,
            spec_decode_envelope(encoded_message@) == Some(raw_views),
            spec_decode_messages(raw_views.subrange(0, j as int)) == Some(
                views_of_messages(messages@),
            ),
        decreases n - j,
    {
        let raw = &raws[j];
        proof {
            let sub1 = raw_views.subrange(0, j as int + 1);
            assert(sub1.drop_last() =~= raw_views.subrange(0, j as int));
            assert(sub1.last() == raw_views[j as int]);
        }
        let nonce_value: u64 = raw.nonce;
        let nonce32: u32 = (nonce_value % 0x1_0000_0000) as u32;
        proof {
            assert(nonce_value % 0x1_0000_0000 == nonce_value as u32 as u64) by (bit_vector);
        }
        let event: AppchainEvent = match raw.payload_type {
            PayloadType::Lock => {
                match decode_lock_payload(&raw.payload) {
                    None => {
                        proof {
                            lemma_decode_messages_none(raw_views, j as int);
                        }
                        return Err(DecodeError::MalformedPayload);
                    },
                    Some(pl) => AppchainEvent::NativeTokenLocked {
                        owner_id_in_appchain: pl.owner_id_in_appchain,
                        receiver_id_in_near: pl.receiver_id_in_near,
                        amount: pl.amount,
                    },
                }
            },
            PayloadType::BurnAsset => {
                match decode_burn_asset_payload(&raw.payload) {
                    None => {
                        proof {
                            lemma_decode_messages_none(raw_views, j as int);
                        }
                        return Err(DecodeError::MalformedPayload);
                    },
                    Some(pl) => AppchainEvent::NearFungibleTokenBurnt {
                        symbol: pl.symbol,
                        owner_id_in_appchain: pl.owner_id_in_appchain,
                        receiver_id_in_near: pl.receiver_id_in_near,
                        amount: pl.amount,
                    },
                }
            },
            PayloadType::PlanNewEra => {
                match decode_plan_new_era_payload(&raw.payload) {
                    None => {
                        proof {
                            lemma_decode_messages_none(raw_views, j as int);
                        }
                        return Err(DecodeError::MalformedPayload);
                    },
                    Some(pl) => AppchainEvent::EraSwitchPlaned {
                        era_number: pl.new_planned_era as u64,
                    },
                }
            },
            PayloadType::EraPayout => {
                match decode_era_payout_payload(&raw.payload) {
                    None => {
                        proof {
                            lemma_decode_messages_none(raw_views, j as int);
                        }
                        return Err(DecodeError::MalformedPayload);
                    },
                    Some(pl) => AppchainEvent::EraRewardConcluded {
                        era_number: pl.era as u64,
                        unprofitable_validator_ids: pl.exclude,
                    },
                }
            },
        };
        let message = AppchainMessage { appchain_event: event, nonce: nonce32 };
        let ghost prev_messages: Seq<AppchainMessage> = messages@;
        let ghost before_views: Seq<AppchainMessageView> = views_of_messages(prev_messages);
        let ghost message_view: AppchainMessageView = message@;
        messages.push(message);
        proof {
            assert(messages@.drop_last() =~= prev_messages);
            assert(views_of_messages(messages@) == before_views.push(message_view));
            assert(message_view == spec_message_of_raw(raw_views[j as int]).unwrap());
        }
        j += 1;
    }
    proof {
        assert(raw_views.subrange(0, raw_views.len() as int) =~= raw_views);
    }
    Ok(messages)
}


impl crate::anchor::AppchainAnchor {
    /// Decodes a proof blob into its typed domain events; the anchor holds
    /// no decoder state, so this is [`decode_appchain_messages`] verbatim.
    pub fn decode(&self, encoded_message: Vec<u8>) -> (r: Result<Vec<AppchainMessage>, DecodeError>)
        ensures
            (match spec_decode(encoded_message@) {
                Ok(ms) => r is Ok && views_of_messages(r.unwrap()@) == ms,
                Err(e) => r == Err::<Vec<AppchainMessage>, DecodeError>(e),
            }),
    {
        decode_appchain_messages(&encoded_message)
    }
}

/// The canonical compact form of a length below two to the thirty-two.
pub open spec fn enc_compact(v: nat) -> Seq<u8> {
    if v < 64 {
        seq![(v * 4) as u8]
    } else if v < 16384 {
        nat_to_le(v * 4 + 1, 2)
    } else if v < 0x4000_0000 {
        nat_to_le(v * 4 + 2, 4)
    } else {
        seq![3u8].add(nat_to_le(v, 4))
    }
}

/// The wire form of a compact-length-prefixed byte string.
pub open spec fn enc_blob(b: Seq<u8>) -> Seq<u8> {
    enc_compact(b.len()).add(b)
}

/// The wire form of a payload-layer byte string.
pub open spec fn enc_b_blob(b: Seq<u8>) -> Seq<u8> {
    nat_to_le(b.len(), 4).add(b)
}

/// The wire form of a lock payload.
pub open spec fn enc_lock_payload(v: LockPayloadView) -> Seq<u8> {
    enc_b_blob(v.owner_id_in_appchain).add(
        enc_b_blob(v.receiver_id_in_near).add(nat_to_le(v.amount as nat, 16)),
    )
}

/// The wire form of a burn payload.
pub open spec fn enc_burn_asset_payload(v: BurnAssetPayloadView) -> Seq<u8> {
    enc_b_blob(v.symbol).add(
        enc_b_blob(v.owner_id_in_appchain).add(
            enc_b_blob(v.receiver_id_in_near).add(nat_to_le(v.amount as nat, 16)),
        ),
    )
}

/// The wire form of a plan-new-era payload.
pub open spec fn enc_plan_new_era_payload(v: PlanNewEraPayload) -> Seq<u8> {
    nat_to_le(v.new_planned_era as nat, 4)
}

/// The wire forms of a list of payload-layer byte strings, concatenated.
pub open spec fn enc_b_blobs(bs: Seq<Seq<u8>>) -> Seq<u8>
    decreases bs.len(),
{
    if bs.len() == 0 {
        Seq::empty()
    } else {
        enc_b_blob(bs[0]).add(enc_b_blobs(bs.drop_first()))
    }
}

/// The wire form of an era-payout payload.
pub open spec fn enc_era_payout_payload(v: EraPayoutPayloadView) -> Seq<u8> {
    nat_to_le(v.era as nat, 4).add(
        nat_to_le(v.payout as nat, 16).add(
            nat_to_le(v.exclude.len(), 4).add(enc_b_blobs(v.exclude)),
        ),
    )
}

/// A little-endian field is as wide as asked.
pub proof fn lemma_nat_to_le_len(v: nat, n: nat)
    ensures
        nat_to_le(v, n).len() == n,
    decreases n,
{
    if n > 0 {
        lemma_nat_to_le_len(v / 256, (n - 1) as nat);
    }
}

/// Reading an `n`-byte field at `p` recovers the value written there.
proof fn lemma_dec_uint_at(s: Seq<u8>, p: int, v: nat, n: nat)
    requires
        0 <= p,
        p + n <= s.len(),
        v < pow256(n),
        s.subrange(p, p + n) == nat_to_le(v, n),
    ensures
        dec_uint(s, p, n as int) == Some((v, p + n)),
{
    lemma_le_roundtrip(v, n);
}

/// Reading a payload-layer byte string at `p` recovers the string written
/// there.
proof fn lemma_dec_b_blob_at(s: Seq<u8>, p: int, b: Seq<u8>)
    requires
        0 <= p,
        b.len() < pow256(4),
        p + 4 + b.len() <= s.len(),
        s.subrange(p, p + 4 + b.len()) == enc_b_blob(b),
    ensures
        dec_b_blob(s, p) == Some((b, p + 4 + b.len())),
{
    lemma_nat_to_le_len(b.len(), 4);
    lemma_le_roundtrip(b.len(), 4);
    assert(s.subrange(p, p + 4) =~= nat_to_le(b.len(), 4));
    lemma_dec_uint_at(s, p, b.len(), 4);
    assert forall|i: int| 0 <= i < b.len() implies s.subrange(p + 4, p + 4 + b.len())[i] == b[i] by {
        assert(s.subrange(p, p + 4 + b.len())[4 + i] == enc_b_blob(b)[4 + i]);
    }
    assert(s.subrange(p + 4, p + 4 + b.len()) =~= b);
}

/// Decoding the wire form of a lock payload recovers the original fields.
pub proof fn lemma_lock_payload_roundtrip(v: LockPayloadView)
    requires
        v.owner_id_in_appchain.len() < pow256(4),
        v.receiver_id_in_near.len() < pow256(4),
    ensures
        spec_dec_lock_payload(enc_lock_payload(v)) == Some(v),
{
    let s = enc_lock_payload(v);
    let o = v.owner_id_in_appchain;
    let rc = v.receiver_id_in_near;
    let p1 = 4 + o.len() as int;
    let p2 = p1 + 4 + rc.len();
    lemma_nat_to_le_len(o.len(), 4);
    lemma_nat_to_le_len(rc.len(), 4);
    lemma_nat_to_le_len(v.amount as nat, 16);
    assert(s.subrange(0, p1) =~= enc_b_blob(o));
    lemma_dec_b_blob_at(s, 0, o);
    assert(s.subrange(p1, p2) =~= enc_b_blob(rc));
    lemma_dec_b_blob_at(s, p1, rc);
    lemma_pow256_values();
    assert(s.subrange(p2, p2 + 16) =~= nat_to_le(v.amount as nat, 16));
    lemma_dec_uint_at(s, p2, v.amount as nat, 16);
}

/// Decoding the wire form of a burn payload recovers the original fields.
pub proof fn lemma_burn_asset_payload_roundtrip(v: BurnAssetPayloadView)
    requires
        v.symbol.len() < pow256(4),
        v.owner_id_in_appchain.len() < pow256(4),
        v.receiver_id_in_near.len() < pow256(4),
    ensures
        spec_dec_burn_asset_payload(enc_burn_asset_payload(v)) == Some(v),
{
    let s = enc_burn_asset_payload(v);
    let sy = v.symbol;
    let o = v.owner_id_in_appchain;
    let rc = v.receiver_id_in_near;
    let p1 = 4 + sy.len() as int;
    let p2 = p1 + 4 + o.len();
    let p3 = p2 + 4 + rc.len();
    lemma_nat_to_le_len(sy.len(), 4);
    lemma_nat_to_le_len(o.len(), 4);
    lemma_nat_to_le_len(rc.len(), 4);
    lemma_nat_to_le_len(v.amount as nat, 16);
    assert(s.subrange(0, p1) =~= enc_b_blob(sy));
    lemma_dec_b_blob_at(s, 0, sy);
    assert(s.subrange(p1, p2) =~= enc_b_blob(o));
    lemma_dec_b_blob_at(s, p1, o);
    assert(s.subrange(p2, p3) =~= enc_b_blob(rc));
    lemma_dec_b_blob_at(s, p2, rc);
    lemma_pow256_values();
    assert(s.subrange(p3, p3 + 16) =~= nat_to_le(v.amount as nat, 16));
    lemma_dec_uint_at(s, p3, v.amount as nat, 16);
}

/// Decoding the wire form of a plan-new-era payload recovers the original
/// field.
pub proof fn lemma_plan_new_era_payload_roundtrip(v: PlanNewEraPayload)
    ensures
        spec_dec_plan_new_era_payload(enc_plan_new_era_payload(v)) == Some(v),
{
    let s = enc_plan_new_era_payload(v);
    lemma_nat_to_le_len(v.new_planned_era as nat, 4);
    lemma_pow256_values();
    assert(s.subrange(0, 4) =~= nat_to_le(v.new_planned_era as nat, 4));
    lemma_dec_uint_at(s, 0, v.new_planned_era as nat, 4);
}

/// Reading a list of payload-layer byte strings at `p` recovers the
/// strings written there.
proof fn lemma_dec_b_blobs_at(s: Seq<u8>, p: int, bs: Seq<Seq<u8>>)
    requires
        0 <= p,
        p + enc_b_blobs(bs).len() <= s.len(),
        forall|i: int| 0 <= i < bs.len() ==> (#[trigger] bs[i]).len() < pow256(4),
        s.subrange(p, p + enc_b_blobs(bs).len()) == enc_b_blobs(bs),
    ensures
        dec_b_blobs(s, p, bs.len()) == Some((bs, p + enc_b_blobs(bs).len())),
    decreases bs.len(),
{
    if bs.len() == 0 {
        assert(bs =~= Seq::<Seq<u8>>::empty());
    } else {
        let b0 = bs[0];
        let rest = bs.drop_first();
        let head = enc_b_blob(b0);
        lemma_nat_to_le_len(b0.len(), 4);
        let p1 = p + head.len();
        assert(s.subrange(p, p1) =~= head);
        lemma_dec_b_blob_at(s, p, b0);
        assert forall|i: int|
            0 <= i < enc_b_blobs(rest).len() implies s.subrange(
            p1,
            p1 + enc_b_blobs(rest).len(),
        )[i] == enc_b_blobs(rest)[i] by {
            assert(s.subrange(p, p + enc_b_blobs(bs).len())[head.len() + i] == enc_b_blobs(
                bs,
            )[head.len() + i]);
        }
        assert(s.subrange(p1, p1 + enc_b_blobs(rest).len()) =~= enc_b_blobs(rest));
        lemma_dec_b_blobs_at(s, p1, rest);
        assert(seq![b0].add(rest) =~= bs);
    }
}

/// Decoding the wire form of an era-payout payload recovers the original
/// fields.
pub proof fn lemma_era_payout_payload_roundtrip(v: EraPayoutPayloadView)
    requires
        v.exclude.len() < pow256(4),
        forall|i: int| 0 <= i < v.exclude.len() ==> (#[trigger] v.exclude[i]).len() < pow256(4),
    ensures
        spec_dec_era_payout_payload(enc_era_payout_payload(v)) == Some(v),
{
    let s = enc_era_payout_payload(v);
    lemma_nat_to_le_len(v.era as nat, 4);
    lemma_nat_to_le_len(v.payout as nat, 16);
    lemma_nat_to_le_len(v.exclude.len(), 4);
    lemma_pow256_values();
    assert(s.subrange(0, 4) =~= nat_to_le(v.era as nat, 4));
    lemma_dec_uint_at(s, 0, v.era as nat, 4);
    assert(s.subrange(4, 20) =~= nat_to_le(v.payout as nat, 16));
    lemma_dec_uint_at(s, 4, v.payout as nat, 16);
    assert(s.subrange(20, 24) =~= nat_to_le(v.exclude.len(), 4));
    lemma_dec_uint_at(s, 20, v.exclude.len(), 4);
    assert(s.subrange(24, 24 + enc_b_blobs(v.exclude).len() as int) =~= enc_b_blobs(v.exclude));
    lemma_dec_b_blobs_at(s, 24, v.exclude);
}


/// The one-byte wire form of a payload tag.
pub open spec fn enc_payload_type(t: PayloadType) -> u8 {
    match t {
        PayloadType::Lock => 0,
        PayloadType::BurnAsset => 1,
        PayloadType::PlanNewEra => 2,
        PayloadType::EraPayout => 3,
    }
}

/// The wire form of one raw envelope entry.
pub open spec fn enc_raw_message(m: RawMessageView) -> Seq<u8> {
    nat_to_le(m.nonce as nat, 8).add(seq![enc_payload_type(m.payload_type)].add(enc_blob(m.payload)))
}

/// The wire forms of a list of raw envelope entries, concatenated.
pub open spec fn enc_raw_messages(ms: Seq<RawMessageView>) -> Seq<u8>
    decreases ms.len(),
{
    if ms.len() == 0 {
        Seq::empty()
    } else {
        enc_raw_message(ms[0]).add(enc_raw_messages(ms.drop_first()))
    }
}

/// The wire form of a whole envelope: the compact entry count, then the
/// entries.
pub open spec fn spec_encode_envelope(ms: Seq<RawMessageView>) -> Seq<u8> {
    enc_compact(ms.len()).add(enc_raw_messages(ms))
}

/// Reading a compact length at `p` recovers the value written there.
proof fn lemma_dec_compact_at(s: Seq<u8>, p: int, v: nat)
    requires
        0 <= p,
        v < pow256(4),
        p + enc_compact(v).len() <= s.len(),
        s.subrange(p, p + enc_compact(v).len()) == enc_compact(v),
    ensures
        dec_compact(s, p) == Some((v, p + enc_compact(v).len())),
{
    lemma_pow256_values();
    if v < 64 {
        assert(s.subrange(p, p + 1)[0] == enc_compact(v)[0]);
        assert(s[p] == (v * 4) as u8);
        assert((v * 4) % 4 == 0 && (v * 4) / 4 == v) by (nonlinear_arith);
    } else if v < 16384 {
        let w = v * 4 + 1;
        lemma_nat_to_le_len(w, 2);
        assert(s.subrange(p, p + 2) =~= nat_to_le(w, 2));
        lemma_le_roundtrip(w, 2);
        lemma_dec_uint_at(s, p, w, 2);
        assert(s[p] == nat_to_le(w, 2)[0]);
        assert(nat_to_le(w, 2)[0] == (w % 256) as u8);
        assert((w % 256) % 4 == 1 && w / 4 == v) by (nonlinear_arith)
            requires
                w == v * 4 + 1,
                0 <= v,
        ;
    } else if v < 0x4000_0000 {
        let w = v * 4 + 2;
        lemma_nat_to_le_len(w, 4);
        assert(s.subrange(p, p + 4) =~= nat_to_le(w, 4));
        lemma_le_roundtrip(w, 4);
        lemma_dec_uint_at(s, p, w, 4);
        assert(s[p] == nat_to_le(w, 4)[0]);
        assert(nat_to_le(w, 4)[0] == (w % 256) as u8);
        assert((w % 256) % 4 == 2 && w / 4 == v) by (nonlinear_arith)
            requires
                w == v * 4 + 2,
                0 <= v,
        ;
    } else {
        lemma_nat_to_le_len(v, 4);
        assert(s.subrange(p, p + 5)[0] == enc_compact(v)[0]);
        assert(s[p] == 3u8);
        assert forall|i: int| 0 <= i < 4 implies s.subrange(p + 1, p + 5)[i] == nat_to_le(
            v,
            4,
        )[i] by {
            assert(s.subrange(p, p + 5)[1 + i] == enc_compact(v)[1 + i]);
        }
        assert(s.subrange(p + 1, p + 5) =~= nat_to_le(v, 4));
        lemma_dec_uint_at(s, p + 1, v, 4);
    }
}

/// Reading a compact-length-prefixed byte string at `p` recovers the
/// string written there.
proof fn lemma_dec_blob_at(s: Seq<u8>, p: int, b: Seq<u8>)
    requires
        0 <= p,
        b.len() < pow256(4),
        p + enc_blob(b).len() <= s.len(),
        s.subrange(p, p + enc_blob(b).len()) == enc_blob(b),
    ensures
        dec_blob(s, p) == Some((b, p + enc_blob(b).len())),
{
    let head = enc_compact(b.len());
    assert(s.subrange(p, p + head.len() as int) =~= head);
    lemma_dec_compact_at(s, p, b.len());
    let q = p + head.len();
    assert forall|i: int| 0 <= i < b.len() implies s.subrange(q, q + b.len())[i] == b[i] by {
        assert(s.subrange(p, p + enc_blob(b).len())[head.len() + i] == enc_blob(b)[head.len()
            + i]);
    }
    assert(s.subrange(q, q + b.len()) =~= b);
}

/// Reading a raw envelope entry at `p` recovers the entry written there.
proof fn lemma_dec_raw_message_at(s: Seq<u8>, p: int, m: RawMessageView)
    requires
        0 <= p,
        m.payload.len() < pow256(4),
        p + enc_raw_message(m).len() <= s.len(),
        s.subrange(p, p + enc_raw_message(m).len()) == enc_raw_message(m),
    ensures
        dec_raw_message(s, p) == Some((m, p + enc_raw_message(m).len())),
{
    lemma_pow256_values();
    lemma_nat_to_le_len(m.nonce as nat, 8);
    let e = enc_raw_message(m);
    assert(s.subrange(p, p + 8) =~= nat_to_le(m.nonce as nat, 8));
    lemma_dec_uint_at(s, p, m.nonce as nat, 8);
    assert(s[p + 8] == e[8]);
    assert(e[8] == enc_payload_type(m.payload_type));
    let q = p + 9;
    assert forall|i: int|
        0 <= i < enc_blob(m.payload).len() implies s.subrange(
        q,
        q + enc_blob(m.payload).len(),
    )[i] == enc_blob(m.payload)[i] by {
        assert(s.subrange(p, p + e.len() as int)[9 + i] == e[9 + i]);
    }
    assert(s.subrange(q, q + enc_blob(m.payload).len()) =~= enc_blob(m.payload));
    lemma_dec_blob_at(s, q, m.payload);
}

/// Reading a list of raw envelope entries at `p` recovers the entries
/// written there.
proof fn lemma_dec_raw_messages_at(s: Seq<u8>, p: int, ms: Seq<RawMessageView>)
    requires
        0 <= p,
        p + enc_raw_messages(ms).len() <= s.len(),
        forall|i: int| 0 <= i < ms.len() ==> (#[trigger] ms[i]).payload.len() < pow256(4),
        s.subrange(p, p + enc_raw_messages(ms).len()) == enc_raw_messages(ms),
    ensures
        dec_raw_messages(s, p, ms.len()) == Some((ms, p + enc_raw_messages(ms).len())),
    decreases ms.len(),
{
    if ms.len() == 0 {
        assert(ms =~= Seq::<RawMessageView>::empty());
    } else {
        let m0 = ms[0];
        let rest = ms.drop_first();
        let head = enc_raw_message(m0);
        let p1 = p + head.len();
        assert(s.subrange(p, p1) =~= head);
        lemma_dec_raw_message_at(s, p, m0);
        assert forall|i: int|
            0 <= i < enc_raw_messages(rest).len() implies s.subrange(
            p1,
            p1 + enc_raw_messages(rest).len(),
        )[i] == enc_raw_messages(rest)[i] by {
            assert(s.subrange(p, p + enc_raw_messages(ms).len())[head.len() + i]
                == enc_raw_messages(ms)[head.len() + i]);
        }
        assert(s.subrange(p1, p1 + enc_raw_messages(rest).len()) =~= enc_raw_messages(rest));
        lemma_dec_raw_messages_at(s, p1, rest);
        assert(seq![m0].add(rest) =~= ms);
    }
}

/// Decoding the wire form of an envelope recovers the raw messages it was
/// built from: no field of any entry is lost or changed.
pub proof fn lemma_envelope_roundtrip(ms: Seq<RawMessageView>)
    requires
        ms.len() < pow256(4),
        forall|i: int| 0 <= i < ms.len() ==> (#[trigger] ms[i]).payload.len() < pow256(4),
    ensures
        spec_decode_envelope(spec_encode_envelope(ms)) == Some(ms),
{
    let s = spec_encode_envelope(ms);
    let head = enc_compact(ms.len());
    assert(s.subrange(0, head.len() as int) =~= head);
    lemma_dec_compact_at(s, 0, ms.len());
    let p = head.len() as int;
    assert forall|i: int|
        0 <= i < enc_raw_messages(ms).len() implies s.subrange(
        p,
        p + enc_raw_messages(ms).len(),
    )[i] == enc_raw_messages(ms)[i] by {
        assert(s[head.len() + i] == enc_raw_messages(ms)[i]);
    }
    assert(s.subrange(p, p + enc_raw_messages(ms).len()) =~= enc_raw_messages(ms));
    lemma_dec_raw_messages_at(s, p, ms);
}

} // verus!
