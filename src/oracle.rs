//! Match oracles: a list of known public keys, a remote node's balances,
//! and the matching of a batch of derived accounts against a node's answer.

use vstd::prelude::*;

use crate::text::{split_on, split_text, strings_view};

verus! {

/// Why an oracle could not answer. Any of these ends the run as inconclusive.
#[derive(PartialEq, Eq, Structural, Debug, Clone, Copy)]
pub enum OracleError {
    /// The request could not be sent or its answer not received.
    Transport,
    /// The answer holds no `balances` object.
    MalformedResponse,
    /// The ledger file could not be read.
    StoreRead,
}

/// An account derived from a checksum-valid candidate.
pub struct Account {
    pub address: String,
    pub seed: [u8; 32],
}

/// What a batching oracle answered: whether anything matched, and which
/// addresses did.
pub struct OracleResult {
    pub matched: bool,
    pub matched_addresses: Vec<String>,
}

/// Whether two keys are the same.
pub fn keys_equal(a: &[u8; 32], b: &[u8; 32]) -> (r: bool)
    ensures
        r == (a@ == b@),
{
    let mut i: usize = 0;
    while i < 32
        invariant
            0 <= i <= 32,
            a@.len() == 32,
            b@.len() == 32,
            forall|k: int| 0 <= k < i ==> a@[k] == b@[k],
        decreases 32 - i,
    {
        if a[i] != b[i] {
            assert(a@[i as int] != b@[i as int]);
            return false;
        }
        i = i + 1;
    }
    assert(a@ =~= b@);
    true
}

/// `heed`'s error, held as an opaque value.
#[verifier::external_type_specification]
#[verifier::external_body]
pub struct ExHeedError(heed::Error);

/// The answer of a ledger lookup: a key that is present matches, whatever
/// its value; a failed read is an oracle failure.
pub fn ledger_outcome(lookup: Result<Option<&[u8]>, heed::Error>) -> (r: Result<bool, OracleError>)
    ensures
        lookup is Ok ==> r == Ok::<bool, OracleError>(lookup->Ok_0 is Some),
        lookup is Err ==> r == Err::<bool, OracleError>(OracleError::StoreRead),
{
    match lookup {
        Ok(Some(_)) => Ok(true),
        Ok(None) => Ok(false),
        Err(_) => Err(OracleError::StoreRead),
    }
}

/// Matches a public key against a fixed set of target keys.
pub struct AddressListOracle {
    targets: Vec<[u8; 32]>,
}

impl AddressListOracle {
    /// The target keys.
    pub closed spec fn keys(&self) -> Set<Seq<u8>> {
        Set::new(|k: Seq<u8>| exists|i: int| 0 <= i < self.targets@.len() && self.targets@[i]@ == k)
    }

    /// An oracle that looks for the given keys.
    pub fn new(targets: Vec<[u8; 32]>) -> (r: AddressListOracle)
        ensures
            forall|k: Seq<u8>| r.keys().contains(k) <==> exists|i: int|
                0 <= i < targets@.len() && targets@[i]@ == k,
    {
        AddressListOracle { targets }
    }

    /// Whether `pk` is one of the target keys.
    pub fn matches(&self, pk: &[u8; 32]) -> (r: bool)
        ensures
            r == self.keys().contains(pk@),
    {
        let mut i: usize = 0;
        while i < self.targets.len()
            invariant
                0 <= i <= self.targets@.len(),
                forall|k: int| 0 <= k < i ==> self.targets@[k]@ != pk@,
            decreases self.targets@.len() - i,
        {
            if keys_equal(&self.targets[i], pk) {
                assert(self.keys().contains(pk@)) by {
                    assert(self.targets@[i as int]@ == pk@);
                }
                return true;
            }
            i = i + 1;
        }
        false
    }
}

/// `key` is what `decode` gives for some text whose characters are `piece`.
pub open spec fn decoded_from<F: Fn(&str) -> [u8; 32]>(
    decode: F,
    piece: Seq<char>,
    key: [u8; 32],
) -> bool {
    exists|a: &str| #[trigger] decode.ensures((a,), key) && a@ == piece
}

/// The public keys of a comma-separated address list, each piece decoded by
/// `decode`, in the order of the list.
pub fn extract_public_keys<F: Fn(&str) -> [u8; 32]>(addresses: &str, decode: F) -> (r: Vec<
    [u8; 32],
>)
    requires
        forall|a: &str| decode.requires((a,)),
    ensures
        r@.len() == split_on(addresses@, ',').len(),
        forall|i: int|
            0 <= i < r@.len() ==> decoded_from(decode, split_on(addresses@, ',')[i], #[trigger] r@[i]),
{
    let pieces = split_text(addresses, ',');
    let mut keys: Vec<[u8; 32]> = Vec::new();
    let mut i: usize = 0;
    while i < pieces.len()
        invariant
            forall|a: &str| decode.requires((a,)),
            strings_view(pieces@) == split_on(addresses@, ','),
            0 <= i <= pieces@.len(),
            keys@.len() == i,
            forall|k: int|
                0 <= k < i ==> decoded_from(decode, split_on(addresses@, ',')[k], #[trigger] keys@[k]),
        decreases pieces@.len() - i,
    {
        let piece = pieces[i].as_str();
        let key = decode(piece);
        assert(piece@ == split_on(addresses@, ',')[i as int]);
        assert(decoded_from(decode, split_on(addresses@, ',')[i as int], key));
        keys.push(key);
        assert(keys@[i as int] == key);
        i = i + 1;
    }
    keys
}

/// Whether a balance field is the text `0`; a missing field is not.
pub open spec fn is_zero_text(f: Option<Seq<char>>) -> bool {
    f == Some(seq!['0'])
}

/// One account of a node's answer: its address, and its balance and pending
/// fields where they are text.
pub struct BalanceEntry {
    pub address: String,
    pub balance: Option<String>,
    pub pending: Option<String>,
}

pub open spec fn field_view(f: Option<String>) -> Option<Seq<char>> {
    match f {
        Some(s) => Some(s@),
        None => None,
    }
}

/// An account is opened unless both its balance and its pending fields are
/// the text `0`.
pub open spec fn entry_opened(e: BalanceEntry) -> bool {
    !(is_zero_text(field_view(e.balance)) && is_zero_text(field_view(e.pending)))
}

/// The addresses of the opened accounts, in the order of the answer.
pub open spec fn opened_addresses(entries: Seq<BalanceEntry>) -> Seq<Seq<char>>
    decreases entries.len(),
{
    if entries.len() == 0 {
        Seq::empty()
    } else {
        let before = opened_addresses(entries.drop_last());
        if entry_opened(entries.last()) {
            before.push(entries.last().address@)
        } else {
            before
        }
    }
}

/// The addresses a report covers: the first matched one where the run stops
/// at the first match, all of them otherwise.
pub open spec fn reported(matched: Seq<Seq<char>>, stop_at_first: bool) -> Seq<Seq<char>> {
    if stop_at_first && matched.len() > 1 {
        matched.take(1)
    } else {
        matched
    }
}

/// The addresses a node's answer reports as matches: all opened ones, or
/// only the first where the run stops at the first match.
pub open spec fn reported_addresses(entries: Seq<BalanceEntry>, stop_at_first: bool) -> Seq<
    Seq<char>,
> {
    reported(opened_addresses(entries), stop_at_first)
}

fn field_is_zero(f: &Option<String>) -> (r: bool)
    ensures
        r == is_zero_text(field_view(*f)),
{
    match f {
        Some(s) => {
            let t = s.as_str();
            if t.unicode_len() != 1 {
                return false;
            }
            let c = t.get_char(0);
            if c == '0' {
                assert(s@ =~= seq!['0']);
            }
            c == '0'
        },
        None => false,
    }
}

/// Whether the account of a node's answer is opened.
pub fn is_opened(e: &BalanceEntry) -> (r: bool)
    ensures
        r == entry_opened(*e),
{
    !(field_is_zero(&e.balance) && field_is_zero(&e.pending))
}

/// Reads a node's answer: the opened accounts match, all of them, or only
/// the first where the run stops at the first match.
pub fn select_opened(entries: &Vec<BalanceEntry>, stop_at_first: bool) -> (r: OracleResult)
    ensures
        strings_view(r.matched_addresses@) == reported_addresses(entries@, stop_at_first),
        r.matched == (opened_addresses(entries@).len() > 0),
{
    let mut found: Vec<String> = Vec::new();
    let mut i: usize = 0;
    while i < entries.len()
        invariant
            0 <= i <= entries@.len(),
            strings_view(found@) == opened_addresses(entries@.take(i as int)),
        decreases entries@.len() - i,
    {
        let ghost s = entries@.take(i + 1);
        assert(s.drop_last() =~= entries@.take(i as int));
        assert(s.last() == entries@[i as int]);
        if is_opened(&entries[i]) {
            let ghost before = strings_view(found@);
            found.push(entries[i].address.clone());
            assert(strings_view(found@) =~= before.push(entries@[i as int].address@));
        }
        i = i + 1;
    }
    assert(entries@.take(entries@.len() as int) =~= entries@);
    let matched = found.len() > 0;
    if stop_at_first && found.len() > 1 {
        let mut first: Vec<String> = Vec::new();
        first.push(found[0].clone());
        assert(strings_view(first@) =~= strings_view(found@).take(1));
        return OracleResult { matched, matched_addresses: first };
    }
    OracleResult { matched, matched_addresses: found }
}

/// A node's answer: without a `balances` object it is malformed; otherwise
/// it is read as `select_opened` reads it.
pub fn read_balances(balances: Option<Vec<BalanceEntry>>, stop_at_first: bool) -> (r: Result<
    OracleResult,
    OracleError,
>)
    ensures
        balances is None ==> r is Err && r->Err_0 == OracleError::MalformedResponse,
        balances is Some ==> r is Ok && strings_view(r->Ok_0.matched_addresses@)
            == reported_addresses(balances->Some_0@, stop_at_first) && r->Ok_0.matched == (
        opened_addresses(balances->Some_0@).len() > 0),
{
    match balances {
        None => Err(OracleError::MalformedResponse),
        Some(entries) => Ok(select_opened(&entries, stop_at_first)),
    }
}

/// `serde_json`'s error, held as an opaque value.
#[verifier::external_type_specification]
#[verifier::external_body]
pub struct ExJsonError(serde_json::Error);

/// The JSON text of a list of strings.
pub uninterp spec fn json_text_of_strings(v: Seq<Seq<char>>) -> Seq<char>;

/// Relies on `serde_json::to_string` on a `Vec<String>`: the JSON array of
/// the strings; its text depends on the strings alone. It cannot fail here:
/// strings always serialize and no map is involved.
#[verifier::external_body]
fn json_array(v: &Vec<String>) -> (r: Result<String, serde_json::Error>)
    ensures
        r is Ok,
        r is Ok ==> r->Ok_0@ == json_text_of_strings(strings_view(v@)),
{
    serde_json::to_string(v)
}

/// The text before the address array of a balance request.
pub open spec fn request_head() -> Seq<char> {
    "{\"action\":\"accounts_balances\",\"accounts\":"@
}

/// The body of a balance request for the given addresses:
/// `{"action":"accounts_balances","accounts":[...]}`.
pub fn balances_request_body(addresses: &Vec<String>) -> (r: String)
    ensures
        r@ == request_head() + json_text_of_strings(strings_view(addresses@)) + "}"@,
{
    let list = json_array(addresses).unwrap();
    let body = String::from_str("{\"action\":\"accounts_balances\",\"accounts\":");
    let body = body.concat(list.as_str());
    body.concat("}")
}

/// The positions, in the batch, of the accounts whose address is in `wanted`.
pub open spec fn positions_matching(addresses: Seq<Seq<char>>, wanted: Seq<Seq<char>>) -> Seq<
    usize,
>
    decreases addresses.len(),
{
    if addresses.len() == 0 {
        Seq::empty()
    } else {
        let before = positions_matching(addresses.drop_last(), wanted);
        if wanted.contains(addresses.last()) {
            before.push((addresses.len() - 1) as usize)
        } else {
            before
        }
    }
}

pub open spec fn account_addresses(batch: Seq<Account>) -> Seq<Seq<char>> {
    batch.map_values(|a: Account| a.address@)
}

fn contains_string(v: &Vec<String>, s: &String) -> (r: bool)
    ensures
        r == strings_view(v@).contains(s@),
{
    let mut i: usize = 0;
    while i < v.len()
        invariant
            0 <= i <= v@.len(),
            forall|k: int| 0 <= k < i ==> v@[k]@ != s@,
        decreases v@.len() - i,
    {
        if v[i] == *s {
            assert(strings_view(v@)[i as int] == s@);
            return true;
        }
        i = i + 1;
    }
    assert forall|k: int| 0 <= k < strings_view(v@).len() implies strings_view(v@)[k] != s@ by {
        assert(strings_view(v@)[k] == v@[k]@);
    }
    false
}

/// The positions of the batch's accounts that an oracle's answer matched:
/// those whose address is the first matched one where the run stops at the
/// first match, or any matched one otherwise. Batch order is kept.
pub fn matched_accounts(batch: &Vec<Account>, matched: &Vec<String>, stop_at_first: bool) -> (r:
    Vec<usize>)
    ensures
        r@ == positions_matching(
            account_addresses(batch@),
            reported(strings_view(matched@), stop_at_first),
        ),
{
    let mut wanted: Vec<String> = Vec::new();
    if stop_at_first && matched.len() > 1 {
        wanted.push(matched[0].clone());
        assert(strings_view(wanted@) =~= strings_view(matched@).take(1));
    } else {
        let mut k: usize = 0;
        while k < matched.len()
            invariant
                0 <= k <= matched@.len(),
                strings_view(wanted@) == strings_view(matched@).take(k as int),
            decreases matched@.len() - k,
        {
            let ghost before = strings_view(wanted@);
            wanted.push(matched[k].clone());
            assert(strings_view(wanted@) =~= before.push(matched@[k as int]@));
            assert(strings_view(wanted@) =~= strings_view(matched@).take(k + 1));
            k = k + 1;
        }
        assert(strings_view(matched@).take(matched@.len() as int) =~= strings_view(matched@));
    }
    let ghost addrs = account_addresses(batch@);
    let mut r: Vec<usize> = Vec::new();
    let mut i: usize = 0;
    while i < batch.len()
        invariant
            0 <= i <= batch@.len(),
            addrs == account_addresses(batch@),
            strings_view(wanted@) == reported(strings_view(matched@), stop_at_first),
            r@ == positions_matching(addrs.take(i as int), strings_view(wanted@)),
        decreases batch@.len() - i,
    {
        assert(addrs.take(i + 1).drop_last() =~= addrs.take(i as int));
        assert(addrs.take(i + 1).last() == batch@[i as int].address@);
        if contains_string(&wanted, &batch[i].address) {
            r.push(i);
        }
        i = i + 1;
    }
    assert(addrs.take(batch@.len() as int) =~= addrs);
    r
}

} // verus!
