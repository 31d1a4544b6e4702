//! A node's JSON answer, as a plain tree, and the balances read from it.

use vstd::prelude::*;

use crate::oracle::{read_balances, BalanceEntry, OracleError, OracleResult};

verus! {

/// A JSON value. Object members are in the order the parser hands them
/// over (`serde_json` sorts them by key).
pub enum Json {
    Null,
    Bool(bool),
    /// A number, as decimal text.
    Number(String),
    Text(String),
    Array(Vec<Json>),
    Object(Vec<(String, Json)>),
}

/// The first member of `fields` named `key`.
pub open spec fn member(fields: Seq<(String, Json)>, key: Seq<char>) -> Option<Json>
    decreases fields.len(),
{
    if fields.len() == 0 {
        None
    } else if fields[0].0@ == key {
        Some(fields[0].1)
    } else {
        member(fields.drop_first(), key)
    }
}

/// The member `key` of an object; nothing for any other value.
pub open spec fn get(j: Json, key: Seq<char>) -> Option<Json> {
    match j {
        Json::Object(fields) => member(fields@, key),
        _ => None,
    }
}

/// The text of a value that is text.
pub open spec fn text_of(j: Option<Json>) -> Option<Seq<char>> {
    match j {
        Some(Json::Text(s)) => Some(s@),
        _ => None,
    }
}

/// The accounts of an answer: the members of its `balances` object, where
/// it has one.
pub open spec fn balances_of(answer: Json) -> Option<Seq<(String, Json)>> {
    match get(answer, "balances"@) {
        Some(Json::Object(accounts)) => Some(accounts@),
        _ => None,
    }
}

/// `e` is the account `member` of a `balances` object: its name, and its
/// `balance` and `pending` members where they are text.
pub open spec fn entry_of(m: (String, Json), e: BalanceEntry) -> bool {
    &&& e.address@ == m.0@
    &&& crate::oracle::field_view(e.balance) == text_of(get(m.1, "balance"@))
    &&& crate::oracle::field_view(e.pending) == text_of(get(m.1, "pending"@))
}

fn find_member<'a>(fields: &'a Vec<(String, Json)>, key: &String) -> (r: Option<&'a Json>)
    ensures
        r is None <==> member(fields@, key@) is None,
        r is Some ==> member(fields@, key@) == Some(*r->Some_0),
{
    let mut i: usize = 0;
    assert(fields@.skip(0) =~= fields@);
    while i < fields.len()
        invariant
            0 <= i <= fields@.len(),
            member(fields@, key@) == member(fields@.skip(i as int), key@),
        decreases fields@.len() - i,
    {
        assert(fields@.skip(i as int).drop_first() =~= fields@.skip(i + 1));
        assert(fields@.skip(i as int)[0] == fields@[i as int]);
        if fields[i].0 == *key {
            return Some(&fields[i].1);
        }
        i = i + 1;
    }
    assert(fields@.skip(i as int) =~= Seq::<(String, Json)>::empty());
    None
}

fn get_member<'a>(j: &'a Json, key: &String) -> (r: Option<&'a Json>)
    ensures
        r is None <==> get(*j, key@) is None,
        r is Some ==> get(*j, key@) == Some(*r->Some_0),
{
    match j {
        Json::Object(fields) => find_member(fields, key),
        _ => None,
    }
}

fn text_member(j: &Json, key: &String) -> (r: Option<String>)
    ensures
        crate::oracle::field_view(r) == text_of(get(*j, key@)),
{
    match get_member(j, key) {
        Some(Json::Text(s)) => Some(s.clone()),
        _ => None,
    }
}

/// The accounts of a node's answer, or nothing where it has no `balances`
/// object.
pub fn balance_entries(answer: &Json) -> (r: Option<Vec<BalanceEntry>>)
    ensures
        r is None <==> balances_of(*answer) is None,
        r is Some ==> r->Some_0@.len() == balances_of(*answer)->Some_0.len() && forall|i: int|
            0 <= i < r->Some_0@.len() ==> entry_of(
                balances_of(*answer)->Some_0[i],
                #[trigger] r->Some_0@[i],
            ),
{
    let balances_key = String::from_str("balances");
    let balance_key = String::from_str("balance");
    let pending_key = String::from_str("pending");
    proof {
        reveal_strlit("balances");
        reveal_strlit("balance");
        reveal_strlit("pending");
    }
    let accounts = match get_member(answer, &balances_key) {
        Some(Json::Object(accounts)) => accounts,
        _ => {
            return None;
        },
    };
    let mut entries: Vec<BalanceEntry> = Vec::new();
    let mut i: usize = 0;
    while i < accounts.len()
        invariant
            balances_of(*answer) == Some(accounts@),
            balance_key@ == "balance"@,
            pending_key@ == "pending"@,
            0 <= i <= accounts@.len(),
            entries@.len() == i,
            forall|k: int| 0 <= k < i ==> entry_of(accounts@[k], #[trigger] entries@[k]),
        decreases accounts@.len() - i,
    {
        let (name, info) = &accounts[i];
        let e = BalanceEntry {
            address: name.clone(),
            balance: text_member(info, &balance_key),
            pending: text_member(info, &pending_key),
        };
        entries.push(e);
        i = i + 1;
    }
    Some(entries)
}

/// Reads a node's parsed answer: malformed without a `balances` object,
/// otherwise the opened accounts as `select_opened` reports them.
pub fn read_answer(answer: &Json, stop_at_first: bool) -> (r: Result<OracleResult, OracleError>)
    ensures
        balances_of(*answer) is None ==> r is Err && r->Err_0 == OracleError::MalformedResponse,
        balances_of(*answer) is Some ==> r is Ok && exists|entries: Seq<BalanceEntry>|
            entries.len() == balances_of(*answer)->Some_0.len() && (forall|i: int|
                0 <= i < entries.len() ==> entry_of(balances_of(*answer)->Some_0[i], #[trigger] entries[i]))
                && crate::text::strings_view(r->Ok_0.matched_addresses@)
                == crate::oracle::reported_addresses(entries, stop_at_first) && r->Ok_0.matched == (
            crate::oracle::opened_addresses(entries).len() > 0),
{
    let entries = balance_entries(answer);
    proof {
        if entries is Some {
            let es = entries->Some_0@;
            assert(es.len() == balances_of(*answer)->Some_0.len());
        }
    }
    read_balances(entries, stop_at_first)
}

} // verus!
