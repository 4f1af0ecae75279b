use sha2::Digest;
use vstd::prelude::*;
use vstd::string::*;

verus! {

/// The prefix that a block's hash must start with unless a chain asks for another.
pub const MINING_DIFFICULTY_PREFIX: &'static str = "000000";

/// The lowercase hexadecimal SHA-256 digest of the UTF-8 encoding of `s`.
pub uninterp spec fn sha256_hex(s: Seq<char>) -> Seq<char>;

pub open spec fn digit_char(d: nat) -> char {
    seq!['0', '1', '2', '3', '4', '5', '6', '7', '8', '9'][d as int]
}

/// `n` written in decimal, without sign or leading zeros.
pub open spec fn decimal(n: nat) -> Seq<char>
    decreases n,
{
    if n < 10 {
        seq![digit_char(n)]
    } else {
        decimal(n / 10).push(digit_char(n % 10))
    }
}

/// `n` written in decimal, with a leading `-` when negative.
pub open spec fn signed_decimal(n: int) -> Seq<char> {
    if n < 0 {
        seq!['-'] + decimal((-n) as nat)
    } else {
        decimal(n as nat)
    }
}

/// The text that is hashed: the five fields written one after the other.
/// No separator stands between them, so two blocks whose fields split the
/// same text differently (a `previous_hash` that ends where the other's
/// timestamp begins) hash the same text; separating the fields would change
/// every hash.
pub open spec fn hash_input(
    id: u64,
    previous_hash: Seq<char>,
    timestamp: i64,
    data: Seq<char>,
    nonce: u64,
) -> Seq<char> {
    decimal(id as nat) + previous_hash + signed_decimal(timestamp as int) + data + decimal(
        nonce as nat,
    )
}

/// The hash of a block with these fields.
pub open spec fn block_digest(
    id: u64,
    previous_hash: Seq<char>,
    timestamp: i64,
    data: Seq<char>,
    nonce: u64,
) -> Seq<char> {
    sha256_hex(hash_input(id, previous_hash, timestamp, data, nonce))
}

/// `hash` starts with `prefix`.
pub open spec fn meets_difficulty(hash: Seq<char>, prefix: Seq<char>) -> bool {
    &&& prefix.len() <= hash.len()
    &&& forall|j: int| 0 <= j < prefix.len() ==> hash[j] == prefix[j]
}

/// `nonce` solves the proof of work for these fields.
pub open spec fn solves(
    id: u64,
    previous_hash: Seq<char>,
    timestamp: i64,
    data: Seq<char>,
    nonce: u64,
    prefix: Seq<char>,
) -> bool {
    meets_difficulty(block_digest(id, previous_hash, timestamp, data, nonce), prefix)
}

/// Some `u64` nonce solves the proof of work for these fields.
pub open spec fn has_solution(
    id: u64,
    previous_hash: Seq<char>,
    timestamp: i64,
    data: Seq<char>,
    prefix: Seq<char>,
) -> bool {
    exists|k: u64| solves(id, previous_hash, timestamp, data, k, prefix)
}

/// The characters of `MINING_DIFFICULTY_PREFIX`.
pub open spec fn default_difficulty() -> Seq<char> {
    seq!['0', '0', '0', '0', '0', '0']
}

/// `c` is one of `0`-`9`, `a`-`f`.
pub open spec fn is_lower_hex_digit(c: char) -> bool {
    ('0' <= c && c <= '9') || ('a' <= c && c <= 'f')
}

/// Relies on `sha2::Sha256::digest` and the `LowerHex` rendering of its 32-byte
/// output: two lowercase hex digits per byte, determined by the text alone.
#[verifier::external_body]
fn sha256_hex_of(s: &str) -> (r: String)
    ensures
        r@ == sha256_hex(s@),
        r@.len() == 64,
        forall|i: int| 0 <= i < r@.len() ==> is_lower_hex_digit(#[trigger] r@[i]),
{
    format!("{:x}", sha2::Sha256::digest(s.as_bytes()))
}

/// Relies on `u64`'s `Display`, which writes the number in decimal.
#[verifier::external_body]
fn u64_text(n: u64) -> (r: String)
    ensures
        r@ == decimal(n as nat),
{
    n.to_string()
}

/// Relies on `i64`'s `Display`, which writes the number in decimal with a `-` when negative.
#[verifier::external_body]
fn i64_text(n: i64) -> (r: String)
    ensures
        r@ == signed_decimal(n as int),
{
    n.to_string()
}

/// Relies on `chrono::Utc::now` and `DateTime::timestamp`: the current time in
/// whole seconds since the Unix epoch. Nothing is known of its value.
#[verifier::external_body]
pub(crate) fn now_timestamp() -> (r: i64) {
    chrono::Utc::now().timestamp()
}

/// Whether `s` starts with `prefix`.
pub fn has_prefix(s: &str, prefix: &str) -> (r: bool)
    ensures
        r == meets_difficulty(s@, prefix@),
{
    let n = prefix.unicode_len();
    let m = s.unicode_len();
    if n > m {
        return false;
    }
    let mut i: usize = 0;
    while i < n
        invariant
            n == prefix@.len(),
            m == s@.len(),
            n <= m,
            i <= n,
            forall|j: int| 0 <= j < i ==> s@[j] == prefix@[j],
        decreases n - i,
    {
        if s.get_char(i) != prefix.get_char(i) {
            return false;
        }
        i += 1;
    }
    true
}

/// The text hashed for a block, up to and without its nonce.
fn hash_stem(id: u64, previous_hash: &str, timestamp: i64, data: &str) -> (r: String)
    ensures
        r@ == decimal(id as nat) + previous_hash@ + signed_decimal(timestamp as int) + data@,
{
    let mut text = u64_text(id);
    text.append(previous_hash);
    text.append(i64_text(timestamp).as_str());
    text.append(data);
    text
}

/// The hash of the block whose text without the nonce is `stem`.
fn hash_with_stem(stem: &String, nonce: u64) -> (r: String)
    ensures
        r@ == sha256_hex(stem@ + decimal(nonce as nat)),
        r@.len() == 64,
        forall|i: int| 0 <= i < r@.len() ==> is_lower_hex_digit(#[trigger] r@[i]),
{
    let text = stem.clone().concat(u64_text(nonce).as_str());
    sha256_hex_of(text.as_str())
}

/// One record of the chain. `hash` is the digest of the other fields and
/// satisfies the proof of work that the block was mined for.
pub struct Block {
    pub id: u64,
    pub hash: String,
    pub previous_hash: String,
    pub timestamp: i64,
    pub data: String,
    pub nonce: u64,
}

/// `b.hash` is the digest of `b`'s other fields and starts with `prefix`.
pub open spec fn is_sealed(b: Block, prefix: Seq<char>) -> bool {
    &&& b.hash@ == block_digest(b.id, b.previous_hash@, b.timestamp, b.data@, b.nonce)
    &&& meets_difficulty(b.hash@, prefix)
}

/// What mining returns: the hash and the first nonce that solves the proof of
/// work, or nothing when no `u64` nonce solves it.
pub open spec fn is_mining_result(
    r: Option<(String, u64)>,
    id: u64,
    previous_hash: Seq<char>,
    timestamp: i64,
    data: Seq<char>,
    prefix: Seq<char>,
) -> bool {
    match r {
        Some((hash, nonce)) => {
            &&& hash@ == block_digest(id, previous_hash, timestamp, data, nonce)
            &&& meets_difficulty(hash@, prefix)
            &&& forall|k: u64| k < nonce ==> !solves(id, previous_hash, timestamp, data, k, prefix)
        },
        None => forall|k: u64| !solves(id, previous_hash, timestamp, data, k, prefix),
    }
}

/// What `Block::mined` returns for these fields.
pub open spec fn is_mined_block(
    r: Option<Block>,
    id: u64,
    previous_hash: Seq<char>,
    timestamp: i64,
    data: Seq<char>,
    prefix: Seq<char>,
) -> bool {
    match r {
        Some(b) => {
            &&& b.id == id
            &&& b.previous_hash@ == previous_hash
            &&& b.timestamp == timestamp
            &&& b.data@ == data
            &&& is_sealed(b, prefix)
            &&& forall|k: u64| k < b.nonce ==> !solves(id, previous_hash, timestamp, data, k, prefix)
        },
        None => forall|k: u64| !solves(id, previous_hash, timestamp, data, k, prefix),
    }
}

/// Hashing is deterministic: two hashes of the same fields are equal.
pub proof fn lemma_hash_deterministic(
    id: u64,
    previous_hash: Seq<char>,
    timestamp: i64,
    data: Seq<char>,
    nonce: u64,
    first: Seq<char>,
    second: Seq<char>,
)
    requires
        first == block_digest(id, previous_hash, timestamp, data, nonce),
        second == block_digest(id, previous_hash, timestamp, data, nonce),
    ensures
        first == second,
{
}

/// Text put between the same two texts differs when it differs.
proof fn lemma_middle_change(before: Seq<char>, x: Seq<char>, y: Seq<char>, after: Seq<char>)
    requires
        x != y,
    ensures
        before + x + after != before + y + after,
{
    let u = before + x + after;
    let v = before + y + after;
    if x.len() == y.len() && u == v {
        assert forall|j: int| 0 <= j < x.len() implies x[j] == y[j] by {
            assert(u[before.len() + j] == x[j]);
            assert(v[before.len() + j] == y[j]);
        }
        assert(x =~= y);
    }
    if x.len() != y.len() {
        assert(u.len() != v.len());
    }
}

proof fn lemma_digit_char_injective(a: nat, b: nat)
    requires
        a < 10,
        b < 10,
        digit_char(a) == digit_char(b),
    ensures
        a == b,
{
    let digits = seq!['0', '1', '2', '3', '4', '5', '6', '7', '8', '9'];
    assert(digits[0] == '0' && digits[1] == '1' && digits[2] == '2' && digits[3] == '3'
        && digits[4] == '4' && digits[5] == '5' && digits[6] == '6' && digits[7] == '7'
        && digits[8] == '8' && digits[9] == '9');
}

proof fn lemma_decimal_shape(n: nat)
    ensures
        decimal(n).len() >= 1,
        n >= 10 ==> decimal(n).len() >= 2,
        '0' <= decimal(n)[0] <= '9',
    decreases n,
{
    let digits = seq!['0', '1', '2', '3', '4', '5', '6', '7', '8', '9'];
    assert(digits[0] == '0' && digits[1] == '1' && digits[2] == '2' && digits[3] == '3'
        && digits[4] == '4' && digits[5] == '5' && digits[6] == '6' && digits[7] == '7'
        && digits[8] == '8' && digits[9] == '9');
    if n >= 10 {
        lemma_decimal_shape(n / 10);
        assert(decimal(n)[0] == decimal(n / 10)[0]);
    }
}

/// Different numbers are written differently.
proof fn lemma_decimal_injective(n: nat, m: nat)
    requires
        n != m,
    ensures
        decimal(n) != decimal(m),
    decreases n,
{
    lemma_decimal_shape(n);
    lemma_decimal_shape(m);
    if n < 10 && m < 10 {
        if decimal(n) == decimal(m) {
            assert(decimal(n)[0] == decimal(m)[0]);
            lemma_digit_char_injective(n, m);
        }
    } else if n >= 10 && m >= 10 {
        if decimal(n) == decimal(m) {
            let dn = decimal(n);
            let dm = decimal(m);
            assert(dn.last() == digit_char(n % 10));
            assert(dm.last() == digit_char(m % 10));
            lemma_digit_char_injective(n % 10, m % 10);
            assert(dn.drop_last() =~= decimal(n / 10));
            assert(dm.drop_last() =~= decimal(m / 10));
            lemma_decimal_injective(n / 10, m / 10);
        }
    }
}

/// Different signed numbers are written differently.
proof fn lemma_signed_decimal_injective(n: int, m: int)
    requires
        n != m,
    ensures
        signed_decimal(n) != signed_decimal(m),
{
    if n < 0 && m < 0 {
        lemma_decimal_injective((-n) as nat, (-m) as nat);
        lemma_middle_change(seq!['-'], decimal((-n) as nat), decimal((-m) as nat), seq![]);
        assert(seq!['-'] + decimal((-n) as nat) + seq![] =~= signed_decimal(n));
        assert(seq!['-'] + decimal((-m) as nat) + seq![] =~= signed_decimal(m));
    } else if n >= 0 && m >= 0 {
        lemma_decimal_injective(n as nat, m as nat);
    } else if n < 0 {
        lemma_decimal_shape(m as nat);
        assert(signed_decimal(n)[0] == '-');
    } else {
        lemma_decimal_shape(n as nat);
        assert(signed_decimal(m)[0] == '-');
    }
}

/// The two sets of block fields differ in exactly one field.
pub open spec fn differs_in_one_field(
    id: u64,
    previous_hash: Seq<char>,
    timestamp: i64,
    data: Seq<char>,
    nonce: u64,
    id2: u64,
    previous_hash2: Seq<char>,
    timestamp2: i64,
    data2: Seq<char>,
    nonce2: u64,
) -> bool {
        ||| id != id2 && previous_hash == previous_hash2 && timestamp == timestamp2 && data
            == data2 && nonce == nonce2
        ||| id == id2 && previous_hash != previous_hash2 && timestamp == timestamp2 && data
            == data2 && nonce == nonce2
        ||| id == id2 && previous_hash == previous_hash2 && timestamp != timestamp2 && data
            == data2 && nonce == nonce2
        ||| id == id2 && previous_hash == previous_hash2 && timestamp == timestamp2 && data
            != data2 && nonce == nonce2
        ||| id == id2 && previous_hash == previous_hash2 && timestamp == timestamp2 && data
            == data2 && nonce != nonce2
}

/// Changing exactly one field of a block changes the text that is hashed for
/// it; whether the digest then changes too is up to SHA-256.
pub proof fn lemma_field_change_changes_hash_input(
    id: u64,
    previous_hash: Seq<char>,
    timestamp: i64,
    data: Seq<char>,
    nonce: u64,
    id2: u64,
    previous_hash2: Seq<char>,
    timestamp2: i64,
    data2: Seq<char>,
    nonce2: u64,
)
    requires
        differs_in_one_field(
            id,
            previous_hash,
            timestamp,
            data,
            nonce,
            id2,
            previous_hash2,
            timestamp2,
            data2,
            nonce2,
        ),
    ensures
        hash_input(id, previous_hash, timestamp, data, nonce) != hash_input(
            id2,
            previous_hash2,
            timestamp2,
            data2,
            nonce2,
        ),
{
    let i1 = decimal(id as nat);
    let i2 = decimal(id2 as nat);
    let t1 = signed_decimal(timestamp as int);
    let t2 = signed_decimal(timestamp2 as int);
    let n1 = decimal(nonce as nat);
    let n2 = decimal(nonce2 as nat);
    let x = hash_input(id, previous_hash, timestamp, data, nonce);
    let y = hash_input(id2, previous_hash2, timestamp2, data2, nonce2);
    if id != id2 {
        lemma_decimal_injective(id as nat, id2 as nat);
        let rest = previous_hash + t1 + data + n1;
        lemma_middle_change(seq![], i1, i2, rest);
        assert(x =~= seq![] + i1 + rest);
        assert(y =~= seq![] + i2 + rest);
    } else if previous_hash != previous_hash2 {
        lemma_middle_change(i1, previous_hash, previous_hash2, t1 + data + n1);
        assert(x =~= i1 + previous_hash + (t1 + data + n1));
        assert(y =~= i1 + previous_hash2 + (t1 + data + n1));
    } else if timestamp != timestamp2 {
        lemma_signed_decimal_injective(timestamp as int, timestamp2 as int);
        lemma_middle_change(i1 + previous_hash, t1, t2, data + n1);
        assert(x =~= i1 + previous_hash + t1 + (data + n1));
        assert(y =~= i1 + previous_hash + t2 + (data + n1));
    } else if data != data2 {
        lemma_middle_change(i1 + previous_hash + t1, data, data2, n1);
    } else {
        lemma_decimal_injective(nonce as nat, nonce2 as nat);
        lemma_middle_change(i1 + previous_hash + t1 + data, n1, n2, seq![]);
        assert(x =~= i1 + previous_hash + t1 + data + n1 + seq![]);
        assert(y =~= i1 + previous_hash + t1 + data + n2 + seq![]);
    }
}

impl Block {
    /// Mines a block at the current time against `MINING_DIFFICULTY_PREFIX`.
    pub fn new(id: u64, previous_hash: String, data: String) -> (r: Option<Block>)
        ensures
            exists|t: i64| is_mined_block(r, id, previous_hash@, t, data@, default_difficulty()),
    {
        let timestamp = now_timestamp();
        proof {
            reveal_strlit("000000");
        }
        assert(MINING_DIFFICULTY_PREFIX@ =~= default_difficulty());
        Block::mined(id, previous_hash, timestamp, data, MINING_DIFFICULTY_PREFIX)
    }

    /// Mines a block with the given fields against `prefix`.
    pub fn mined(id: u64, previous_hash: String, timestamp: i64, data: String, prefix: &str) -> (r:
        Option<Block>)
        ensures
            is_mined_block(r, id, previous_hash@, timestamp, data@, prefix@),
    {
        match Block::mine_with_prefix(id, &previous_hash, timestamp, &data, prefix) {
            Some((hash, nonce)) => Some(Block { id, hash, previous_hash, timestamp, data, nonce }),
            None => None,
        }
    }

    /// The hash of a block with these fields.
    pub fn hash(id: u64, previous_hash: String, timestamp: i64, data: String, nonce: u64) -> (r:
        String)
        ensures
            r@ == block_digest(id, previous_hash@, timestamp, data@, nonce),
            r@.len() == 64,
            forall|i: int| 0 <= i < r@.len() ==> is_lower_hex_digit(#[trigger] r@[i]),
    {
        let stem = hash_stem(id, previous_hash.as_str(), timestamp, data.as_str());
        let r = hash_with_stem(&stem, nonce);
        assert(stem@ + decimal(nonce as nat) =~= hash_input(
            id,
            previous_hash@,
            timestamp,
            data@,
            nonce,
        ));
        r
    }

    /// Searches nonces upward from zero for one whose hash starts with
    /// `MINING_DIFFICULTY_PREFIX`.
    pub fn mine(id: u64, previous_hash: String, timestamp: i64, data: String) -> (r: Option<
        (String, u64),
    >)
        ensures
            is_mining_result(r, id, previous_hash@, timestamp, data@, default_difficulty()),
    {
        proof {
            reveal_strlit("000000");
        }
        assert(MINING_DIFFICULTY_PREFIX@ =~= default_difficulty());
        Block::mine_with_prefix(id, &previous_hash, timestamp, &data, MINING_DIFFICULTY_PREFIX)
    }

    /// Searches nonces upward from zero for one whose hash starts with `prefix`.
    pub fn mine_with_prefix(
        id: u64,
        previous_hash: &String,
        timestamp: i64,
        data: &String,
        prefix: &str,
    ) -> (r: Option<(String, u64)>)
        ensures
            is_mining_result(r, id, previous_hash@, timestamp, data@, prefix@),
    {
        let stem = hash_stem(id, previous_hash.as_str(), timestamp, data.as_str());
        let mut nonce: u64 = 0;
        loop
            invariant
                stem@ == decimal(id as nat) + previous_hash@ + signed_decimal(timestamp as int)
                    + data@,
                forall|k: u64|
                    k < nonce ==> !solves(id, previous_hash@, timestamp, data@, k, prefix@),
            decreases u64::MAX - nonce,
        {
            let hash = hash_with_stem(&stem, nonce);
            assert(stem@ + decimal(nonce as nat) =~= hash_input(
                id,
                previous_hash@,
                timestamp,
                data@,
                nonce,
            ));
            if has_prefix(hash.as_str(), prefix) {
                return Some((hash, nonce));
            }
            if nonce == u64::MAX {
                return None;
            }
            nonce += 1;
        }
    }
}

} // verus!
