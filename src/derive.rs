//! Hierarchical deterministic derivation: a seed becomes a master extended
//! key, and each path segment one child key, down to a leaf key pair.

use std::str::FromStr;
use vstd::prelude::*;

verus! {

#[verifier::external_type_specification]
#[verifier::external_body]
pub struct ExBip32Error(bip32::Error);

/// Child numbers from this value up are hardened.
pub const HARDENED_FLAG: u32 = 0x8000_0000;

/// Deepest level a key can have.
pub const MAX_DEPTH: u8 = 255;

/// Why a derivation failed.
#[derive(Debug, Clone, Copy, PartialEq, Eq, Structural)]
pub enum DerivationError {
    /// The seed gave no valid master key (or had a length the scheme refuses).
    InvalidSeed,
    /// The child key at this index is out of range; the next index may work.
    InvalidChildIndex { index: u32 },
    /// The path text does not follow `m/i1'/i2'/.../in`.
    MalformedPath,
    /// A key at the deepest level was asked for a child.
    DepthExceeded,
}

/// One step of a derivation path.
#[derive(Debug, Clone, Copy, PartialEq, Eq, Structural)]
pub struct PathSegment {
    pub index: u32,
    pub hardened: bool,
}

impl PathSegment {
    pub open spec fn wf(&self) -> bool {
        self.index < HARDENED_FLAG
    }

    /// The serialized child number: the index, with the top bit set when
    /// hardened.
    pub open spec fn child_number(&self) -> u32 {
        if self.hardened {
            (self.index + HARDENED_FLAG) as u32
        } else {
            self.index
        }
    }
}

/// An ordered sequence of derivation steps from the master key.
#[derive(Debug, Clone, PartialEq, Eq)]
pub struct DerivationPath {
    pub segments: Vec<PathSegment>,
}

impl DerivationPath {
    pub open spec fn wf(&self) -> bool {
        forall|i: int| 0 <= i < self.segments@.len() ==> (#[trigger] self.segments@[i]).wf()
    }
}

/// A 32-byte private scalar with its 32-byte chain code, at some depth.
#[derive(Debug, Clone, PartialEq, Eq)]
pub struct ExtendedPrivateKey {
    pub private_key: Vec<u8>,
    pub chain_code: Vec<u8>,
    pub depth: u8,
}

impl ExtendedPrivateKey {
    pub open spec fn wf(&self) -> bool {
        self.private_key@.len() == 32 && self.chain_code@.len() == 32
    }

    /// Private key followed by chain code.
    pub open spec fn material(&self) -> Seq<u8> {
        self.private_key@ + self.chain_code@
    }
}

/// A leaf private key and its compressed public key.
#[derive(Debug, Clone, PartialEq, Eq)]
pub struct KeyPair {
    pub private_key: Vec<u8>,
    pub public_key: Vec<u8>,
}

/// The 64 bytes (key, then chain code) of the master key of `seed`, if any.
pub uninterp spec fn bip32_master(seed: Seq<u8>) -> Option<Seq<u8>>;

/// The 64 bytes (key, then chain code) of the child numbered `child_number`
/// of the key `key` with chain code `chain_code`, if any.
pub uninterp spec fn bip32_child(key: Seq<u8>, chain_code: Seq<u8>, child_number: u32) -> Option<
    Seq<u8>,
>;

/// The 33-byte compressed secp256k1 public key of the scalar `key`, if it is
/// a valid scalar.
pub uninterp spec fn secp256k1_public_key(key: Seq<u8>) -> Option<Seq<u8>>;

/// The child numbers of the path text `text`, if it parses.
pub uninterp spec fn bip32_path(text: Seq<char>) -> Option<Seq<u32>>;

/// Relies on `bip32::XPrv::new`: HMAC-SHA512 keyed by "Bitcoin seed" over
/// the seed, left half the key and right half the chain code; the result is a
/// valid secp256k1 scalar; seeds not 16, 32 or 64 bytes long are refused.
#[verifier::external_body]
fn xprv_new(seed: &[u8]) -> (r: Result<(Vec<u8>, Vec<u8>), bip32::Error>)
    ensures
        r matches Ok(m) ==> m.0@.len() == 32 && m.1@.len() == 32 && bip32_master(seed@) == Some(
            m.0@ + m.1@,
        ) && secp256k1_public_key(m.0@) is Some,
        r is Err ==> bip32_master(seed@) is None,
        !(seed@.len() == 16 || seed@.len() == 32 || seed@.len() == 64) ==> r is Err,
{
    let xprv = bip32::XPrv::new(seed)?;
    Ok((xprv.to_bytes().to_vec(), xprv.attrs().chain_code.to_vec()))
}

/// Relies on `bip32::XPrv::derive_child`, on a parent rebuilt from its key,
/// chain code and depth through `bip32::ExtendedKey`: the child depends on
/// key, chain code and child number alone, is a valid secp256k1 scalar, and
/// a parent at depth 255 has no child.
#[verifier::external_body]
fn xprv_derive_child(key: &[u8], chain_code: &[u8], depth: u8, child_number: u32) -> (r: Result<
    (Vec<u8>, Vec<u8>),
    bip32::Error,
>)
    requires
        key@.len() == 32,
        chain_code@.len() == 32,
    ensures
        depth == MAX_DEPTH ==> r is Err,
        depth < MAX_DEPTH ==> (r is Err <==> bip32_child(key@, chain_code@, child_number) is None),
        r matches Ok(m) ==> m.0@.len() == 32 && m.1@.len() == 32 && bip32_child(
            key@,
            chain_code@,
            child_number,
        ) == Some(m.0@ + m.1@) && secp256k1_public_key(m.0@) is Some,
{
    let mut key_bytes = [0u8; 33];
    key_bytes[1..].copy_from_slice(key);
    let attrs = bip32::ExtendedKeyAttrs {
        depth,
        parent_fingerprint: [0u8; 4],
        child_number: bip32::ChildNumber(0),
        chain_code: chain_code.try_into().unwrap(),
    };
    let ext = bip32::ExtendedKey { prefix: bip32::Prefix::XPRV, attrs, key_bytes };
    let child = bip32::XPrv::try_from(ext)?.derive_child(bip32::ChildNumber(child_number))?;
    Ok((child.to_bytes().to_vec(), child.attrs().chain_code.to_vec()))
}

/// Relies on `bip32::XPrv::public_key` and its `to_bytes`, on a key rebuilt
/// through `bip32::ExtendedKey`: the 33-byte compressed point of the scalar
/// times the secp256k1 generator.
#[verifier::external_body]
fn xprv_public_key(key: &[u8]) -> (r: Result<Vec<u8>, bip32::Error>)
    requires
        key@.len() == 32,
    ensures
        r matches Ok(p) ==> p@.len() == 33 && secp256k1_public_key(key@) == Some(p@),
        r is Err ==> secp256k1_public_key(key@) is None,
{
    let mut key_bytes = [0u8; 33];
    key_bytes[1..].copy_from_slice(key);
    let attrs = bip32::ExtendedKeyAttrs {
        depth: 0,
        parent_fingerprint: [0u8; 4],
        child_number: bip32::ChildNumber(0),
        chain_code: [0u8; 32],
    };
    let ext = bip32::ExtendedKey { prefix: bip32::Prefix::XPRV, attrs, key_bytes };
    Ok(bip32::XPrv::try_from(ext)?.public_key().to_bytes().to_vec())
}

/// Relies on `bip32::DerivationPath`'s `FromStr`: `m`, then `/`-separated
/// decimal indices below 2^31, each hardened by a trailing `'` or `h`; gives
/// the child numbers in order.
#[verifier::external_body]
fn bip32_parse_path(text: &str) -> (r: Result<Vec<u32>, bip32::Error>)
    ensures
        r matches Ok(v) ==> bip32_path(text@) == Some(v@),
        r is Err ==> bip32_path(text@) is None,
{
    let path = bip32::DerivationPath::from_str(text)?;
    Ok(path.iter().map(|c| c.0).collect())
}

/// The path segment that a child number stands for.
pub open spec fn segment_of(child_number: u32) -> PathSegment {
    PathSegment { index: child_number & 0x7fff_ffff, hardened: child_number & HARDENED_FLAG != 0 }
}

/// The master key material of `seed`.
pub open spec fn master_spec(seed: Seq<u8>) -> Result<Seq<u8>, DerivationError> {
    match bip32_master(seed) {
        Some(m) => Ok(m),
        None => Err(DerivationError::InvalidSeed),
    }
}

/// The material of the child at `seg` of a key with material `parent`
/// (key, then chain code) at depth `depth`.
pub open spec fn child_spec(parent: Seq<u8>, depth: nat, seg: PathSegment) -> Result<
    Seq<u8>,
    DerivationError,
> {
    if !seg.wf() {
        Err(DerivationError::MalformedPath)
    } else if depth >= MAX_DEPTH {
        Err(DerivationError::DepthExceeded)
    } else {
        match bip32_child(parent.take(32), parent.skip(32), seg.child_number()) {
            Some(c) => Ok(c),
            None => Err(DerivationError::InvalidChildIndex { index: seg.index }),
        }
    }
}

/// The material reached from `start`, at depth `depth`, by walking `segs`
/// in order; the first failing step decides the error.
pub open spec fn walk_spec(start: Seq<u8>, depth: nat, segs: Seq<PathSegment>) -> Result<
    Seq<u8>,
    DerivationError,
>
    decreases segs.len(),
{
    if segs.len() == 0 {
        Ok(start)
    } else {
        match walk_spec(start, depth, segs.drop_last()) {
            Ok(m) => child_spec(m, (depth + segs.len() - 1) as nat, segs.last()),
            Err(e) => Err(e),
        }
    }
}

/// The leaf private key and public key that `seed` and `segs` derive.
pub open spec fn derive_spec(seed: Seq<u8>, segs: Seq<PathSegment>) -> Result<
    (Seq<u8>, Seq<u8>),
    DerivationError,
> {
    match master_spec(seed) {
        Err(e) => Err(e),
        Ok(m) => match walk_spec(m, 0, segs) {
            Err(e) => Err(e),
            Ok(leaf) => match secp256k1_public_key(leaf.take(32)) {
                Some(p) => Ok((leaf.take(32), p)),
                None => Err(DerivationError::InvalidSeed),
            },
        },
    }
}

/// `r` is what deriving from `seed` along `segs` gives.
pub open spec fn derives(seed: Seq<u8>, segs: Seq<PathSegment>, r: Result<KeyPair, DerivationError>) -> bool {
    match r {
        Ok(kp) => derive_spec(seed, segs) == Ok::<(Seq<u8>, Seq<u8>), DerivationError>(
            (kp.private_key@, kp.public_key@),
        ),
        Err(e) => derive_spec(seed, segs) == Err::<(Seq<u8>, Seq<u8>), DerivationError>(e),
    }
}

proof fn lemma_material_split(k: &ExtendedPrivateKey)
    requires
        k.wf(),
    ensures
        k.material().take(32) == k.private_key@,
        k.material().skip(32) == k.chain_code@,
{
    assert(k.material().take(32) =~= k.private_key@);
    assert(k.material().skip(32) =~= k.chain_code@);
}

/// Expands `seed` into the master extended key.
pub fn master_key(seed: &[u8]) -> (r: Result<ExtendedPrivateKey, DerivationError>)
    ensures
        r matches Ok(k) ==> k.wf() && k.depth == 0 && master_spec(seed@) == Ok::<
            Seq<u8>,
            DerivationError,
        >(k.material()) && secp256k1_public_key(k.private_key@) is Some,
        r matches Err(e) ==> master_spec(seed@) == Err::<Seq<u8>, DerivationError>(e),
{
    match xprv_new(seed) {
        Ok((private_key, chain_code)) => Ok(ExtendedPrivateKey { private_key, chain_code, depth: 0 }),
        Err(_) => Err(DerivationError::InvalidSeed),
    }
}

/// Derives the child of `parent` at `index`, hardened or not.
pub fn derive_child(parent: &ExtendedPrivateKey, index: u32, hardened: bool) -> (r: Result<
    ExtendedPrivateKey,
    DerivationError,
>)
    requires
        parent.wf(),
    ensures
        r matches Ok(k) ==> k.wf() && k.depth == parent.depth + 1 && child_spec(
            parent.material(),
            parent.depth as nat,
            PathSegment { index, hardened },
        ) == Ok::<Seq<u8>, DerivationError>(k.material()) && secp256k1_public_key(
            k.private_key@,
        ) is Some,
        r matches Err(e) ==> child_spec(
            parent.material(),
            parent.depth as nat,
            PathSegment { index, hardened },
        ) == Err::<Seq<u8>, DerivationError>(e),
{
    proof {
        lemma_material_split(parent);
    }
    if index >= HARDENED_FLAG {
        return Err(DerivationError::MalformedPath);
    }
    if parent.depth == MAX_DEPTH {
        return Err(DerivationError::DepthExceeded);
    }
    let child_number = if hardened {
        index + HARDENED_FLAG
    } else {
        index
    };
    match xprv_derive_child(
        parent.private_key.as_slice(),
        parent.chain_code.as_slice(),
        parent.depth,
        child_number,
    ) {
        Ok((private_key, chain_code)) => Ok(
            ExtendedPrivateKey { private_key, chain_code, depth: parent.depth + 1 },
        ),
        Err(_) => Err(DerivationError::InvalidChildIndex { index }),
    }
}

/// Derives the child of `parent` at the first index from `index` on whose
/// key is in range, and gives that index with the key: the recovery that
/// the scheme prescribes for an out-of-range child.
pub fn derive_child_skipping(parent: &ExtendedPrivateKey, index: u32, hardened: bool) -> (r:
    Result<(u32, ExtendedPrivateKey), DerivationError>)
    requires
        parent.wf(),
    ensures
        r matches Ok(found) ==> index <= found.0 && found.1.wf() && found.1.depth == parent.depth
            + 1 && child_spec(
            parent.material(),
            parent.depth as nat,
            PathSegment { index: found.0, hardened },
        ) == Ok::<Seq<u8>, DerivationError>(found.1.material()) && forall|i: u32|
            index <= i < found.0 ==> (#[trigger] child_spec(
                parent.material(),
                parent.depth as nat,
                PathSegment { index: i, hardened },
            )) is Err,
        r is Err ==> forall|i: u32|
            index <= i < HARDENED_FLAG ==> (#[trigger] child_spec(
                parent.material(),
                parent.depth as nat,
                PathSegment { index: i, hardened },
            )) is Err,
        parent.depth == MAX_DEPTH && index < HARDENED_FLAG ==> r == Err::<
            (u32, ExtendedPrivateKey),
            DerivationError,
        >(
            DerivationError::DepthExceeded,
        ),
        index >= HARDENED_FLAG ==> r == Err::<(u32, ExtendedPrivateKey), DerivationError>(
            DerivationError::MalformedPath,
        ),
{
    if index >= HARDENED_FLAG {
        return Err(DerivationError::MalformedPath);
    }
    let mut j: u32 = index;
    loop
        invariant
            parent.wf(),
            index <= j < HARDENED_FLAG,
            forall|i: u32|
                index <= i < j ==> (#[trigger] child_spec(
                    parent.material(),
                    parent.depth as nat,
                    PathSegment { index: i, hardened },
                )) is Err,
        decreases HARDENED_FLAG - j,
    {
        match derive_child(parent, j, hardened) {
            Ok(k) => {
                return Ok((j, k));
            },
            Err(DerivationError::InvalidChildIndex { index: _ }) => {
                if j + 1 == HARDENED_FLAG {
                    return Err(DerivationError::InvalidChildIndex { index: j });
                }
                j = j + 1;
            },
            Err(e) => {
                proof {
                    assert(parent.depth == MAX_DEPTH);
                    assert forall|i: u32| index <= i < HARDENED_FLAG implies (#[trigger] child_spec(
                        parent.material(),
                        parent.depth as nat,
                        PathSegment { index: i, hardened },
                    )) is Err by {}
                }
                return Err(e);
            },
        }
    }
}

proof fn lemma_walk_error_persists(start: Seq<u8>, depth: nat, segs: Seq<PathSegment>, k: int)
    requires
        0 <= k <= segs.len(),
        walk_spec(start, depth, segs.take(k)) is Err,
    ensures
        walk_spec(start, depth, segs) == walk_spec(start, depth, segs.take(k)),
    decreases segs.len() - k,
{
    if k < segs.len() {
        assert(segs.take(k + 1).drop_last() == segs.take(k));
        lemma_walk_error_persists(start, depth, segs, k + 1);
    } else {
        assert(segs.take(k) == segs);
    }
}

/// Walks `path` from `start`, one child per segment, in order.
pub fn derive_path(start: &ExtendedPrivateKey, path: &DerivationPath) -> (r: Result<
    ExtendedPrivateKey,
    DerivationError,
>)
    requires
        start.wf(),
    ensures
        r matches Ok(k) ==> k.wf() && walk_spec(start.material(), start.depth as nat, path.segments@)
            == Ok::<Seq<u8>, DerivationError>(k.material()),
        r matches Ok(k) ==> (secp256k1_public_key(start.private_key@) is Some ==> secp256k1_public_key(
            k.private_key@,
        ) is Some),
        r matches Err(e) ==> walk_spec(start.material(), start.depth as nat, path.segments@)
            == Err::<Seq<u8>, DerivationError>(e),
{
    let mut current = ExtendedPrivateKey {
        private_key: start.private_key.clone(),
        chain_code: start.chain_code.clone(),
        depth: start.depth,
    };
    proof {
        assert(path.segments@.take(0) == Seq::<PathSegment>::empty());
    }
    let mut i: usize = 0;
    while i < path.segments.len()
        invariant
            start.wf(),
            current.wf(),
            i <= path.segments@.len(),
            current.depth as nat == start.depth as nat + i,
            secp256k1_public_key(start.private_key@) is Some ==> secp256k1_public_key(
                current.private_key@,
            ) is Some,
            walk_spec(start.material(), start.depth as nat, path.segments@.take(i as int))
                == Ok::<Seq<u8>, DerivationError>(current.material()),
        decreases path.segments@.len() - i,
    {
        proof {
            assert(path.segments@.take(i as int + 1).drop_last() == path.segments@.take(i as int));
        }
        let seg = path.segments[i];
        match derive_child(&current, seg.index, seg.hardened) {
            Ok(k) => {
                current = k;
            },
            Err(e) => {
                proof {
                    lemma_walk_error_persists(start.material(), start.depth as nat, path.segments@, i as int + 1);
                }
                return Err(e);
            },
        }
        i = i + 1;
    }
    proof {
        assert(path.segments@.take(path.segments@.len() as int) == path.segments@);
    }
    Ok(current)
}

/// Derives the leaf key pair of `path` from `seed`: the master key, one
/// child per segment, then the compressed public key of the leaf.
pub fn derive_key_material(seed: &[u8], path: &DerivationPath) -> (r: Result<KeyPair, DerivationError>)
    ensures
        derives(seed@, path.segments@, r),
{
    let master = master_key(seed)?;
    let leaf = derive_path(&master, path)?;
    proof {
        lemma_material_split(&leaf);
    }
    match xprv_public_key(leaf.private_key.as_slice()) {
        Ok(public_key) => Ok(KeyPair { private_key: leaf.private_key, public_key }),
        Err(_) => Err(DerivationError::InvalidSeed),
    }
}

/// Derivation is deterministic: two results derived from the same seed and
/// path are both keys, byte for byte the same, or both the same error.
pub proof fn lemma_derivation_deterministic(
    seed: Seq<u8>,
    segs: Seq<PathSegment>,
    a: Result<KeyPair, DerivationError>,
    b: Result<KeyPair, DerivationError>,
)
    requires
        derives(seed, segs, a),
        derives(seed, segs, b),
    ensures
        a is Ok <==> b is Ok,
        a is Ok ==> a->Ok_0.private_key@ == b->Ok_0.private_key@ && a->Ok_0.public_key@
            == b->Ok_0.public_key@,
        a is Err ==> a->Err_0 == b->Err_0,
{
}

/// Parses path text `m/i1'/i2'/.../in` (a trailing `'` or `h` marks a
/// hardened step).
pub fn parse_path(text: &str) -> (r: Result<DerivationPath, DerivationError>)
    ensures
        bip32_path(text@) is None ==> r == Err::<DerivationPath, DerivationError>(
            DerivationError::MalformedPath,
        ),
        bip32_path(text@) is Some ==> r is Ok && r->Ok_0.segments@ == bip32_path(
            text@,
        )->Some_0.map_values(|c: u32| segment_of(c)),
        r is Ok ==> r->Ok_0.wf(),
{
    let numbers = match bip32_parse_path(text) {
        Ok(v) => v,
        Err(_) => {
            return Err(DerivationError::MalformedPath);
        },
    };
    let mut segments: Vec<PathSegment> = Vec::new();
    let mut i: usize = 0;
    while i < numbers.len()
        invariant
            i <= numbers@.len(),
            segments@ == numbers@.take(i as int).map_values(|c: u32| segment_of(c)),
            forall|k: int| 0 <= k < segments@.len() ==> (#[trigger] segments@[k]).wf(),
        decreases numbers@.len() - i,
    {
        let c = numbers[i];
        let seg = PathSegment { index: c & 0x7fff_ffff, hardened: c & HARDENED_FLAG != 0 };
        proof {
            assert(c & 0x7fff_ffffu32 < 0x8000_0000u32) by (bit_vector);
        }
        segments.push(seg);
        i = i + 1;
        proof {
            assert(segments@ =~= numbers@.take(i as int).map_values(|c: u32| segment_of(c)));
        }
    }
    proof {
        assert(numbers@.take(numbers@.len() as int) == numbers@);
    }
    Ok(DerivationPath { segments })
}

/// The segments of `m/44'/111111'/0'/0/<wallet_index>`.
pub open spec fn wallet_segments(wallet_index: u32) -> Seq<PathSegment> {
    seq![
        PathSegment { index: 44, hardened: true },
        PathSegment { index: 111111, hardened: true },
        PathSegment { index: 0, hardened: true },
        PathSegment { index: 0, hardened: false },
        PathSegment { index: wallet_index, hardened: false },
    ]
}

/// The path `m/44'/111111'/0'/0/<wallet_index>` of one wallet.
pub fn wallet_path(wallet_index: u32) -> (r: DerivationPath)
    requires
        wallet_index < HARDENED_FLAG,
    ensures
        r.segments@ == wallet_segments(wallet_index),
        r.wf(),
{
    let segments = vec![
        PathSegment { index: 44, hardened: true },
        PathSegment { index: 111111, hardened: true },
        PathSegment { index: 0, hardened: true },
        PathSegment { index: 0, hardened: false },
        PathSegment { index: wallet_index, hardened: false },
    ];
    DerivationPath { segments }
}

} // verus!
