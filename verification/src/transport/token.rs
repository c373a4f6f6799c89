//! Connect tokens. netcode assumes an issuer; for community servers the
//! server is the issuer. `Unsecure` exists for the lab and for nothing else; a
//! server bound with it reports so in `Server::is_unsecure`.
use super::TransportError;
use vstd::prelude::*;

verus! {

/// Server-side authentication mode.
pub enum Auth {
    /// Accept unsigned tokens. Lab only.
    Unsecure,
    /// Verify tokens signed with this key. The key never leaves the server
    /// process; the issuer endpoint runs inside it.
    Secure {
        /// The netcode private key.
        private_key: [u8; 32],
    },
}

/// An opaque connect token handed to a client by the issuer, serialized with
/// netcode's own layout. Empty means "connect unsecure" (lab only).
pub struct ConnectToken(pub Vec<u8>);

impl ConnectToken {
    /// Whether to connect unsecure.
    pub fn is_unsecure(&self) -> (r: bool)
        ensures
            r == (self.0@.len() == 0),
    {
        self.0.len() == 0
    }
}

/// Seconds a freshly issued token stays valid.
pub const TOKEN_EXPIRE_S: u64 = 300;

/// Seconds without packets before netcode drops a connection.
pub const TOKEN_TIMEOUT_S: i32 = 15;

/// `n` in `width` bytes, least significant first.
pub open spec fn le(n: nat, width: nat) -> Seq<u8>
    decreases width,
{
    if width == 0 {
        seq![]
    } else {
        seq![(n % 256) as u8] + le(n / 256, (width - 1) as nat)
    }
}

/// The address that a text names, as netcode writes it, if it names one.
pub uninterp spec fn socket_address(text: Seq<char>) -> Option<Seq<u8>>;

/// What the first forty-five bytes of a token say: whom it is for, netcode's
/// version, the protocol, and from when to when it is valid.
pub open spec fn token_head(
    client_id: u64,
    protocol_id: u64,
    create_s: u64,
    expire_s: nat,
) -> Seq<u8> {
    le(client_id as nat, 8) + seq![
        0x4eu8, 0x45, 0x54, 0x43, 0x4f, 0x44, 0x45, 0x20, 0x31, 0x2e, 0x30, 0x32, 0,
    ] + le(protocol_id as nat, 8) + le(create_s as nat, 8) + le(expire_s, 8)
}

/// The sealed part of a token: client, timeout, server address, session keys and
/// user data, encrypted and authenticated with the private key under the nonce,
/// together with the protocol and the time it expires.
pub uninterp spec fn sealed_part(
    client_id: u64,
    timeout_s: i32,
    address: Seq<u8>,
    session_keys: Seq<u8>,
    user_data: Seq<u8>,
    protocol_id: u64,
    expire_s: u64,
    nonce: Seq<u8>,
    private_key: Seq<u8>,
) -> Seq<u8>;

/// These are the bytes of a token with this head, timeout and server address.
/// Between head and timeout lie a nonce and the sealed part, after the address
/// two session keys.
pub open spec fn is_token(bytes: Seq<u8>, head: Seq<u8>, timeout_s: nat, address: Seq<u8>) -> bool {
    &&& bytes.len() == 1165 + address.len()
    &&& bytes.take(45) == head
    &&& bytes.subrange(1093, 1097) == le(timeout_s, 4)
    &&& bytes.subrange(1097, 1101) == le(1, 4)
    &&& bytes.subrange(1101, 1101int + address.len()) == address
}

/// The sealed part of these bytes was made with this key, for this client,
/// timeout, address, protocol and expiry, under the nonce and with the session
/// keys that stand in the bytes, and with some user data.
pub open spec fn is_sealed(
    bytes: Seq<u8>,
    client_id: u64,
    timeout_s: i32,
    address: Seq<u8>,
    protocol_id: u64,
    expire_s: u64,
    private_key: Seq<u8>,
) -> bool {
    exists|user_data: Seq<u8>|
        bytes.subrange(69, 1093) == #[trigger] sealed_part(
            client_id,
            timeout_s,
            address,
            bytes.skip(1101int + address.len()),
            user_data,
            protocol_id,
            expire_s,
            bytes.subrange(45, 69),
            private_key,
        )
}

/// `renet_netcode::ConnectToken::generate` for one server address and no user
/// data, written with `ConnectToken::write`: a token for every text that names
/// an address and for no other, its public fields where `write` puts them, its
/// sealed part made with the private key. The nonce, the session keys and the
/// user data rest on chance and are left unsaid. The operating system's source
/// of randomness is taken to be there.
#[verifier::external_body]
fn generate_token(
    now_s: u64,
    protocol_id: u64,
    expire_s: u64,
    client_id: u64,
    timeout_s: i32,
    server_addr: &str,
    private_key: &[u8; 32],
) -> (r: Option<Vec<u8>>)
    requires
        now_s + expire_s <= u64::MAX,
        timeout_s >= 0,
    ensures
        r is Some <==> socket_address(server_addr@) is Some,
        r matches Some(bytes) ==> {
            &&& socket_address(server_addr@) matches Some(address)
            &&& is_token(
                bytes@,
                token_head(client_id, protocol_id, now_s, (now_s + expire_s) as nat),
                timeout_s as nat,
                address,
            )
            &&& exists|user_data: Seq<u8>|
                bytes@.subrange(69, 1093) == #[trigger] sealed_part(
                    client_id,
                    timeout_s,
                    address,
                    bytes@.skip(1101int + address.len()),
                    user_data,
                    protocol_id,
                    (now_s + expire_s) as u64,
                    bytes@.subrange(45, 69),
                    private_key@,
                )
        },
{
    let now = std::time::Duration::from_secs(now_s);
    let to = vec![server_addr.parse().ok()?];
    let token = renet_netcode::ConnectToken::generate(
        now, protocol_id, expire_s, client_id, timeout_s, to, None, private_key,
    ).ok()?;
    let mut bytes: Vec<u8> = Vec::new();
    token.write(&mut bytes).ok()?;
    Some(bytes)
}

/// Issue a token for `client_id` after the operator's own check (password,
/// invite, allowlist) has passed. The HTTPS front for this lives in the
/// gamemode, not here; this function only signs. `now_s` is the issuer's clock,
/// in seconds since the Unix epoch.
pub fn issue(
    private_key: &[u8; 32],
    client_id: u64,
    server_addr: &str,
    protocol_id: u64,
    now_s: u64,
) -> (r: Result<ConnectToken, TransportError>)
    requires
        now_s + TOKEN_EXPIRE_S <= u64::MAX,
    ensures
        match r {
            Ok(token) => {
                &&& socket_address(server_addr@) matches Some(address)
                &&& is_token(
                    token.0@,
                    token_head(client_id, protocol_id, now_s, (now_s + 300) as nat),
                    15,
                    address,
                )
                &&& is_sealed(
                    token.0@,
                    client_id,
                    15,
                    address,
                    protocol_id,
                    (now_s + 300) as u64,
                    private_key@,
                )
            },
            Err(e) => socket_address(server_addr@) is None && e == TransportError::Token,
        },
{
    let made = generate_token(
        now_s,
        protocol_id,
        TOKEN_EXPIRE_S,
        client_id,
        TOKEN_TIMEOUT_S,
        server_addr,
        private_key,
    );
    from_generated(made)
}

/// What an issuer hands out for what netcode made.
pub fn from_generated(made: Option<Vec<u8>>) -> (r: Result<ConnectToken, TransportError>)
    ensures
        match made {
            Some(bytes) => r matches Ok(token) && token.0 == bytes,
            None => r matches Err(e) && e == TransportError::Token,
        },
{
    match made {
        Some(bytes) => Ok(ConnectToken(bytes)),
        None => Err(TransportError::Token),
    }
}

/// The number that bytes stand for, least significant first.
pub open spec fn number_of(bytes: Seq<u8>) -> nat
    decreases bytes.len(),
{
    if bytes.len() == 0 {
        0
    } else {
        bytes[0] as nat + 256 * number_of(bytes.skip(1))
    }
}

proof fn lemma_le_reads_back(n: nat, width: nat)
    requires
        n < vstd::arithmetic::power::pow(256, width),
    ensures
        le(n, width).len() == width,
        number_of(le(n, width)) == n,
    decreases width,
{
    reveal(vstd::arithmetic::power::pow);
    if width > 0 {
        let rest = (width - 1) as nat;
        let p = vstd::arithmetic::power::pow(256, rest);
        assert(vstd::arithmetic::power::pow(256, width) == 256 * p);
        assert(n / 256 < p) by (nonlinear_arith)
            requires
                n < 256 * p,
        ;
        lemma_le_reads_back(n / 256, rest);
        assert(le(n, width).skip(1) =~= le(n / 256, rest));
    }
}

proof fn lemma_eight(n: nat)
    requires
        n <= u64::MAX,
    ensures
        le(n, 8).len() == 8,
        number_of(le(n, 8)) == n,
{
    assert(vstd::arithmetic::power::pow(256, 8) == 0x1_0000_0000_0000_0000) by {
        reveal_with_fuel(vstd::arithmetic::power::pow, 9);
    }
    lemma_le_reads_back(n, 8);
}

/// What a token says in the open reads back: whom it is for at its start, the
/// protocol behind the version, then from when and until when it is valid.
pub proof fn law_tokens_read_back(
    bytes: Seq<u8>,
    client_id: u64,
    protocol_id: u64,
    create_s: u64,
    expire_s: nat,
    timeout_s: nat,
    address: Seq<u8>,
)
    requires
        is_token(
            bytes,
            token_head(client_id, protocol_id, create_s, expire_s),
            timeout_s,
            address,
        ),
        expire_s <= u64::MAX,
    ensures
        number_of(bytes.subrange(0, 8)) == client_id,
        number_of(bytes.subrange(21, 29)) == protocol_id,
        number_of(bytes.subrange(29, 37)) == create_s,
        number_of(bytes.subrange(37, 45)) == expire_s,
{
    let head = token_head(client_id, protocol_id, create_s, expire_s);
    lemma_eight(client_id as nat);
    lemma_eight(protocol_id as nat);
    lemma_eight(create_s as nat);
    lemma_eight(expire_s);
    assert(head.subrange(0, 8) =~= le(client_id as nat, 8));
    assert(head.subrange(21, 29) =~= le(protocol_id as nat, 8));
    assert(head.subrange(29, 37) =~= le(create_s as nat, 8));
    assert(head.subrange(37, 45) =~= le(expire_s, 8));
    assert(bytes.subrange(0, 8) =~= bytes.take(45).subrange(0, 8));
    assert(bytes.subrange(21, 29) =~= bytes.take(45).subrange(21, 29));
    assert(bytes.subrange(29, 37) =~= bytes.take(45).subrange(29, 37));
    assert(bytes.subrange(37, 45) =~= bytes.take(45).subrange(37, 45));
}

} // verus!
