use brute::answer::{balance_entries, read_answer, Json};
use brute::config::{Address, ConfigError, Settings};
use brute::control::{percent_hundredths, rate_per_second, BatchStep, Batcher, TerminationFlag};
use brute::oracle::{
    balances_request_body, extract_public_keys, keys_equal, matched_accounts, read_balances,
    select_opened, Account, AddressListOracle, BalanceEntry, OracleError,
};
use brute::report::account_report;
use brute::run::{exit_code, plan_run, select_mode, Aggregator, Mode, RunError, Verdict, WorkerOutcome};
use brute::space::{build_search_space, complexity_of, fits_counter, SpaceError, TemplateSlot};
use brute::template::{parse_template, token_slot, TemplateError};
use brute::text::{split_text, split_words};
use brute::split::{choose_worker_count, split_candidates, split_space};
use brute::worker::{fill_in, Worker};

fn known_template() -> Vec<TemplateSlot> {
    (0..24u16).map(|i| TemplateSlot::Word(i * 3)).collect()
}

fn settings(mode: u8, multithreaded: bool, stop_at_first: bool) -> Settings {
    Settings {
        mode,
        address_prefix: String::from("nano_"),
        stop_at_first,
        stats_logging: false,
        multithreaded,
    }
}

fn address(list: &str) -> Address {
    Address { addresses: String::from(list) }
}

/// A stand-in for key derivation: the low byte of every word, then the
/// high bits of the words packed into the last eight bytes.
fn fake_key(m: &[u16]) -> [u8; 32] {
    let mut k = [0u8; 32];
    for (i, w) in m.iter().enumerate() {
        k[i] = (w & 0xff) as u8;
        k[24 + i % 8] ^= ((w >> 8) as u8) << (3 * (i / 8));
    }
    k
}

fn drain(w: &mut Worker) -> Vec<Vec<u16>> {
    let mut out = vec![];
    while let Some(c) = w.next_candidate() {
        out.push(c);
    }
    out
}

#[test]
fn fully_known_template_has_one_candidate() {
    let t = known_template();
    let space = build_search_space(&t).unwrap();
    assert_eq!(space.complexity, 1);
    assert!(space.unknown_indexes.is_empty());
    let mut w = Worker::new(&space.template, &space.unknown_indexes, space.possibilities, true).unwrap();
    let all = drain(&mut w);
    assert_eq!(all.len(), 1);
    assert_eq!(all[0], (0..24u16).map(|i| i * 3).collect::<Vec<_>>());
    assert_eq!(w.tested(), 1);
    assert!(w.next_candidate().is_none());
    assert_eq!(w.tested(), 1);
}

#[test]
fn one_wildcard_stops_at_the_matching_index() {
    let mut t = known_template();
    t[5] = TemplateSlot::Any;
    let space = build_search_space(&t).unwrap();
    assert_eq!(space.complexity, 2048);
    assert_eq!(space.unknown_indexes, vec![5]);
    let k: u16 = 1234;
    let mut target: Vec<u16> = (0..24u16).map(|i| i * 3).collect();
    target[5] = k;
    let oracle = AddressListOracle::new(vec![fake_key(&target)]);
    let mut w = Worker::new(&space.template, &space.unknown_indexes, space.possibilities, true).unwrap();
    let mut reports = vec![];
    while let Some(c) = w.next_candidate() {
        let pk = fake_key(&c);
        if oracle.matches(&pk) {
            let account = Account { address: format!("nano_{}", c[5]), seed: pk };
            reports.push(account_report(&account));
            if w.record_match() {
                break;
            }
        }
    }
    assert!(w.found());
    assert_eq!(w.tested(), k as u64 + 1);
    assert!(w.tested() <= 2048);
    assert!(w.next_candidate().is_none());
    assert_eq!(reports.len(), 1);
    assert!(reports[0].starts_with("Address: nano_1234\nSeed: "));
    assert!(reports[0].ends_with(&hex_of(&fake_key(&target))));
}

fn hex_of(b: &[u8]) -> String {
    b.iter().map(|x| format!("{:02x}", x)).collect()
}

#[test]
fn six_wildcards_overflow_and_no_run_starts() {
    let mut t = known_template();
    for i in 0..6 {
        t[i] = TemplateSlot::Any;
    }
    assert_eq!(build_search_space(&t).err(), Some(SpaceError::ComplexityOverflow));
    let r = plan_run(&settings(1, true, true), &address("nano_x"), &t, 8);
    assert_eq!(r.err(), Some(RunError::Space(SpaceError::ComplexityOverflow)));
}

#[test]
fn five_wildcards_still_fit_the_counter() {
    let mut t = known_template();
    for i in 0..5 {
        t[i] = TemplateSlot::Any;
    }
    let space = build_search_space(&t).unwrap();
    assert_eq!(space.complexity, 1u64 << 55);
}

fn entry(address: &str, balance: Option<&str>, pending: Option<&str>) -> BalanceEntry {
    BalanceEntry {
        address: String::from(address),
        balance: balance.map(String::from),
        pending: pending.map(String::from),
    }
}

#[test]
fn node_all_zero_balances_match_nothing() {
    let entries = vec![
        entry("nano_a", Some("0"), Some("0")),
        entry("nano_b", Some("0"), Some("0")),
    ];
    let r = select_opened(&entries, false);
    assert!(!r.matched);
    assert!(r.matched_addresses.is_empty());
}

#[test]
fn node_one_pending_balance_is_the_sole_match() {
    let entries = vec![
        entry("nano_a", Some("0"), Some("0")),
        entry("nano_b", Some("0"), Some("1000")),
        entry("nano_c", Some("0"), Some("0")),
    ];
    let r = select_opened(&entries, false);
    assert!(r.matched);
    assert_eq!(r.matched_addresses, vec![String::from("nano_b")]);
}

#[test]
fn node_missing_field_counts_as_opened() {
    let entries = vec![entry("nano_a", Some("0"), None), entry("nano_b", Some("00"), Some("0"))];
    let r = select_opened(&entries, false);
    assert_eq!(r.matched_addresses, vec![String::from("nano_a"), String::from("nano_b")]);
    let r = select_opened(&entries, true);
    assert!(r.matched);
    assert_eq!(r.matched_addresses, vec![String::from("nano_a")]);
}

#[test]
fn node_answer_without_balances_is_malformed() {
    assert_eq!(read_balances(None, true).err(), Some(OracleError::MalformedResponse));
    let r = read_balances(Some(vec![entry("nano_a", Some("5"), Some("0"))]), true).unwrap();
    assert!(r.matched);
}

#[test]
fn ledger_scan_without_key_exhausts_the_space() {
    let mut t = known_template();
    t[0] = TemplateSlot::OneOf(vec![1, 2, 3]);
    t[23] = TemplateSlot::OneOf(vec![10, 20]);
    let space = build_search_space(&t).unwrap();
    assert_eq!(space.complexity, 6);
    let store: Vec<[u8; 32]> = vec![[7u8; 32]];
    let mut w = Worker::new(&space.template, &space.unknown_indexes, space.possibilities, false).unwrap();
    while let Some(c) = w.next_candidate() {
        let pk = fake_key(&c);
        if store.iter().any(|k| keys_equal(k, &pk)) {
            w.record_match();
        }
    }
    assert!(!w.found());
    assert_eq!(w.tested(), space.complexity);
}

#[test]
fn ledger_scan_with_key_reports_the_candidate() {
    let mut t = known_template();
    t[0] = TemplateSlot::OneOf(vec![1, 2, 3]);
    t[23] = TemplateSlot::OneOf(vec![10, 20]);
    let space = build_search_space(&t).unwrap();
    let mut wanted: Vec<u16> = (0..24u16).map(|i| i * 3).collect();
    wanted[0] = 2;
    wanted[23] = 20;
    let store = vec![fake_key(&wanted)];
    let mut w = Worker::new(&space.template, &space.unknown_indexes, space.possibilities, false).unwrap();
    let mut hits = vec![];
    while let Some(c) = w.next_candidate() {
        let pk = fake_key(&c);
        if store.iter().any(|k| keys_equal(k, &pk)) {
            hits.push(c.clone());
            w.record_match();
        }
    }
    assert!(w.found());
    assert_eq!(hits, vec![wanted]);
    assert_eq!(w.tested(), 6);
}

#[test]
fn candidates_come_in_lexicographic_order() {
    let mut t = known_template();
    t[2] = TemplateSlot::OneOf(vec![4, 9]);
    t[7] = TemplateSlot::OneOf(vec![1, 5, 6]);
    let space = build_search_space(&t).unwrap();
    assert_eq!(space.unknown_indexes, vec![2, 7]);
    let mut w = Worker::new(&space.template, &space.unknown_indexes, space.possibilities, false).unwrap();
    let pairs: Vec<(u16, u16)> = drain(&mut w).iter().map(|c| (c[2], c[7])).collect();
    assert_eq!(pairs, vec![(4, 1), (4, 5), (4, 6), (9, 1), (9, 5), (9, 6)]);
}

#[test]
fn single_candidate_list_is_a_known_slot() {
    let mut t = known_template();
    t[4] = TemplateSlot::OneOf(vec![77]);
    let space = build_search_space(&t).unwrap();
    assert_eq!(space.complexity, 1);
    assert_eq!(space.template[4], 77);
}

#[test]
fn invalid_templates_are_refused() {
    let mut t = known_template();
    t.pop();
    assert_eq!(build_search_space(&t).err(), Some(SpaceError::InvalidTemplate));
    let mut t = known_template();
    t[0] = TemplateSlot::Word(2048);
    assert_eq!(build_search_space(&t).err(), Some(SpaceError::InvalidTemplate));
    let mut t = known_template();
    t[0] = TemplateSlot::OneOf(vec![]);
    assert_eq!(build_search_space(&t).err(), Some(SpaceError::InvalidTemplate));
    let mut t = known_template();
    t[0] = TemplateSlot::OneOf(vec![5, 3, 5]);
    assert_eq!(build_search_space(&t).err(), Some(SpaceError::InvalidTemplate));
    let mut t = known_template();
    t[0] = TemplateSlot::OneOf(vec![5, 2048]);
    assert_eq!(build_search_space(&t).err(), Some(SpaceError::InvalidTemplate));
}

#[test]
fn candidate_lists_keep_their_order() {
    let mut t = known_template();
    t[0] = TemplateSlot::OneOf(vec![9, 4]);
    let space = build_search_space(&t).unwrap();
    assert_eq!(space.template[0], 9);
    let mut w = Worker::new(&space.template, &space.unknown_indexes, space.possibilities, false).unwrap();
    let firsts: Vec<u16> = drain(&mut w).iter().map(|c| c[0]).collect();
    assert_eq!(firsts, vec![9, 4]);
}

#[test]
fn complexity_is_the_product_of_list_sizes() {
    assert_eq!(complexity_of(&vec![vec![1, 2, 3], vec![4, 5], vec![6]]), 6);
    assert_eq!(complexity_of(&vec![]), 1);
    let big: Vec<u16> = (0..2048).collect();
    assert_eq!(complexity_of(&vec![big.clone(); 5]), 1u64 << 55);
    assert_eq!(complexity_of(&vec![big.clone(); 6]), 0);
    assert!(!fits_counter(&vec![big.clone(); 6]));
    assert!(fits_counter(&vec![big.clone(), vec![]]));
}

#[test]
fn worker_count_divides_the_wordlist() {
    assert_eq!(choose_worker_count(1), Err(ConfigError::TooFewExecutionUnits));
    assert_eq!(choose_worker_count(0), Err(ConfigError::TooFewExecutionUnits));
    assert_eq!(choose_worker_count(2), Ok(2));
    assert_eq!(choose_worker_count(6), Ok(4));
    assert_eq!(choose_worker_count(8), Ok(8));
    assert_eq!(choose_worker_count(12), Ok(8));
    assert_eq!(choose_worker_count(100), Ok(64));
}

#[test]
fn split_deals_evenly_and_covers_exactly() {
    let cands: Vec<u16> = (0..10).collect();
    let parts = split_candidates(&cands, 4);
    assert_eq!(parts, vec![vec![0, 1, 2], vec![3, 4, 5], vec![6, 7], vec![8, 9]]);
    let all: Vec<u16> = (0..2048).collect();
    let parts = split_candidates(&all, 8);
    assert!(parts.iter().all(|p| p.len() == 256));
    let joined: Vec<u16> = parts.concat();
    assert_eq!(joined, all);
    let small = split_candidates(&vec![1, 2], 4);
    assert_eq!(small, vec![vec![1], vec![2], vec![], vec![]]);
}

#[test]
fn partitions_enumerate_the_whole_space_once() {
    let mut t = known_template();
    t[1] = TemplateSlot::OneOf(vec![3, 4, 5, 6, 7]);
    t[9] = TemplateSlot::OneOf(vec![8, 9, 10]);
    let space = build_search_space(&t).unwrap();
    let mut whole = Worker::new(&space.template, &space.unknown_indexes, space.possibilities.clone(), false).unwrap();
    let expected = drain(&mut whole);
    let parts = split_space(&space.possibilities, 2);
    assert_eq!(parts.len(), 2);
    let mut got = vec![];
    let mut counts = 0;
    for p in parts {
        let mut w = Worker::new(&space.template, &space.unknown_indexes, p, false).unwrap();
        got.extend(drain(&mut w));
        counts += w.tested();
    }
    assert_eq!(got, expected);
    assert_eq!(counts, space.complexity);
    assert_eq!(split_space(&vec![], 4).len(), 1);
}

#[test]
fn termination_flag_stays_raised() {
    let mut f = TerminationFlag::new();
    assert!(!f.raised());
    assert!(f.raise());
    assert!(f.raised());
    assert!(!f.raise());
    assert!(f.raised());
}

#[test]
fn address_list_membership() {
    let empty = AddressListOracle::new(vec![]);
    assert!(!empty.matches(&[0u8; 32]));
    assert!(!empty.matches(&[9u8; 32]));
    let o = AddressListOracle::new(vec![[1u8; 32], [2u8; 32]]);
    assert!(o.matches(&[2u8; 32]));
    let mut k = [1u8; 32];
    assert!(o.matches(&k));
    k[31] = 0;
    assert!(!o.matches(&k));
}

#[test]
fn address_list_membership_over_many_sets() {
    let mut seed: u64 = 0x2545F4914F6CDD1D;
    let mut next = || {
        seed ^= seed << 13;
        seed ^= seed >> 7;
        seed ^= seed << 17;
        seed
    };
    for _ in 0..50 {
        let n = (next() % 6) as usize;
        let keys: Vec<[u8; 32]> = (0..n).map(|_| [(next() % 4) as u8; 32]).collect();
        let o = AddressListOracle::new(keys.clone());
        for _ in 0..10 {
            let q = [(next() % 4) as u8; 32];
            assert_eq!(o.matches(&q), keys.contains(&q));
        }
    }
}

#[test]
fn addresses_split_on_commas() {
    assert_eq!(split_text("a,b,,c", ','), vec!["a", "b", "", "c"]);
    assert_eq!(split_text("", ','), vec![""]);
    assert_eq!(split_text("nano_1", ','), vec!["nano_1"]);
    let keys = extract_public_keys("ab,c", |s: &str| [s.len() as u8; 32]);
    assert_eq!(keys, vec![[2u8; 32], [1u8; 32]]);
}

#[test]
fn request_body_names_action_and_accounts() {
    let body = balances_request_body(&vec![String::from("nano_a"), String::from("nano_b")]);
    assert_eq!(body, "{\"action\":\"accounts_balances\",\"accounts\":[\"nano_a\",\"nano_b\"]}");
}

#[test]
fn matched_accounts_follow_the_batch() {
    let batch = vec![
        Account { address: String::from("x"), seed: [0; 32] },
        Account { address: String::from("y"), seed: [1; 32] },
        Account { address: String::from("z"), seed: [2; 32] },
    ];
    let found = vec![String::from("z"), String::from("x")];
    assert_eq!(matched_accounts(&batch, &found, false), vec![0, 2]);
    assert_eq!(matched_accounts(&batch, &found, true), vec![2]);
    assert!(matched_accounts(&batch, &vec![], false).is_empty());
}

#[test]
fn batches_fill_then_dispatch_or_stop() {
    let acct = |i: u8| Account { address: format!("a{}", i), seed: [i; 32] };
    let mut b = Batcher::new(2);
    assert!(matches!(b.push(acct(0), false), BatchStep::Continue));
    match b.push(acct(1), false) {
        BatchStep::Dispatch(v) => assert_eq!(v.len(), 2),
        _ => panic!("expected a full batch"),
    }
    assert!(matches!(b.push(acct(2), true), BatchStep::Continue));
    assert!(matches!(b.push(acct(3), true), BatchStep::Stop));
    assert!(matches!(b.push(acct(4), false), BatchStep::Continue));
    let last = b.finish(false).unwrap();
    assert_eq!(last[0].address, "a4");
    let mut b = Batcher::new(3);
    b.push(acct(5), false);
    assert!(b.finish(true).is_none());
}

#[test]
fn progress_figures() {
    assert_eq!(percent_hundredths(1, 3), 3333);
    assert_eq!(percent_hundredths(2048, 2048), 10000);
    assert_eq!(percent_hundredths(0, 7), 0);
    assert_eq!(rate_per_second(5000, 2500), Some(2000));
    assert_eq!(rate_per_second(5, 0), None);
}

#[test]
fn run_plans_and_their_refusals() {
    let t = known_template();
    assert_eq!(plan_run(&settings(4, true, true), &address("a"), &t, 8).err(), Some(RunError::Config(ConfigError::UnknownMode)));
    assert_eq!(plan_run(&settings(1, true, true), &address(""), &t, 8).err(), Some(RunError::Config(ConfigError::NoAddresses)));
    assert_eq!(plan_run(&settings(2, true, true), &address(""), &t, 1).err(), Some(RunError::Config(ConfigError::TooFewExecutionUnits)));
    let mut t = known_template();
    t[3] = TemplateSlot::Any;
    let plan = plan_run(&settings(2, true, true), &address(""), &t, 6).unwrap();
    assert_eq!(plan.mode, Mode::Ledger);
    assert_eq!(plan.workers, 4);
    assert_eq!(plan.partitions.len(), 4);
    assert!(plan.partitions.iter().all(|p| p[0].len() == 512));
    let plan = plan_run(&settings(3, true, true), &address(""), &t, 1).unwrap();
    assert_eq!(plan.workers, 1);
    assert_eq!(plan.partitions.len(), 1);
    assert_eq!(plan.partitions[0][0].len(), 2048);
    assert_eq!(select_mode(1), Ok(Mode::AddressList));
}

#[test]
fn verdicts_and_exit_codes() {
    let mut a = Aggregator::new(true);
    assert!(!a.record(WorkerOutcome::Exhausted));
    assert_eq!(a.verdict(), Verdict::NotFound);
    assert!(a.record(WorkerOutcome::Found));
    assert_eq!(a.verdict(), Verdict::Found);
    a.record(WorkerOutcome::Failed(OracleError::Transport));
    assert_eq!(a.verdict(), Verdict::Inconclusive);
    let mut b = Aggregator::new(false);
    assert!(!b.record(WorkerOutcome::Found));
    b.record(WorkerOutcome::Panicked);
    assert_eq!(b.verdict(), Verdict::Inconclusive);
    assert_eq!(exit_code(Verdict::Found), 0);
    assert_eq!(exit_code(Verdict::NotFound), 0);
    assert_eq!(exit_code(Verdict::Inconclusive), 1);
}

#[test]
fn fill_in_writes_the_unknown_positions() {
    let t: Vec<u16> = vec![0; 24];
    let m = fill_in(&t, &vec![3, 20], &vec![7, 9]);
    assert_eq!(m[3], 7);
    assert_eq!(m[20], 9);
    assert_eq!(m.iter().filter(|w| **w != 0).count(), 2);
}

#[test]
fn report_shows_address_and_hex_seed() {
    let mut seed = [0u8; 32];
    seed[0] = 0xab;
    seed[31] = 0x0f;
    let r = account_report(&Account { address: String::from("nano_q"), seed });
    let expected = format!("Address: nano_q\nSeed: ab{}0f", "00".repeat(30));
    assert_eq!(r, expected);
}

#[test]
fn args_give_the_words() {
    let args: Vec<String> = (0..25).map(|i| format!("w{}", i)).collect();
    let (words, stop) = brute::config::handle_args(&args);
    assert!(stop);
    assert_eq!(words[0], "w1");
    assert_eq!(words[23], "w24");
}

fn obj(members: Vec<(&str, Json)>) -> Json {
    Json::Object(members.into_iter().map(|(k, v)| (String::from(k), v)).collect())
}

fn text(s: &str) -> Json {
    Json::Text(String::from(s))
}

#[test]
fn node_answer_is_read_from_the_balances_object() {
    let answer = obj(vec![(
        "balances",
        obj(vec![
            ("nano_a", obj(vec![("balance", text("0")), ("pending", text("0"))])),
            ("nano_b", obj(vec![("balance", text("0")), ("pending", text("7"))])),
            ("nano_c", obj(vec![("balance", Json::Number(String::from("0"))), ("pending", text("0"))])),
        ]),
    )]);
    let entries = balance_entries(&answer).unwrap();
    assert_eq!(entries.len(), 3);
    assert_eq!(entries[1].pending, Some(String::from("7")));
    assert_eq!(entries[2].balance, None);
    let r = read_answer(&answer, false).unwrap();
    assert_eq!(r.matched_addresses, vec![String::from("nano_b"), String::from("nano_c")]);
    let r = read_answer(&answer, true).unwrap();
    assert_eq!(r.matched_addresses, vec![String::from("nano_b")]);
    let missing = obj(vec![("error", text("bad"))]);
    assert!(balance_entries(&missing).is_none());
    assert_eq!(read_answer(&missing, false).err(), Some(OracleError::MalformedResponse));
    assert_eq!(read_answer(&Json::Null, false).err(), Some(OracleError::MalformedResponse));
    let not_object = obj(vec![("balances", Json::Array(vec![]))]);
    assert!(balance_entries(&not_object).is_none());
}

fn test_wordlist() -> Vec<String> {
    (0..2048).map(|i| format!("w{}", i)).collect()
}

#[test]
fn words_are_split_on_whitespace() {
    assert_eq!(split_words("  a bb\tc\n\nd "), vec!["a", "bb", "c", "d"]);
    assert_eq!(split_words("a\u{c}b\u{b}c\u{a0}d\u{3000}e"), vec!["a", "b", "c", "d", "e"]);
    assert!(split_words("   ").is_empty());
    assert!(split_words("").is_empty());
}

#[test]
fn template_text_is_read_against_the_wordlist() {
    let wl = test_wordlist();
    let mut words: Vec<String> = (0..24).map(|i| format!("w{}", i * 5)).collect();
    words[2] = String::from("X");
    words[7] = String::from("w9|w3|w100");
    let text = words.join(" ");
    let slots = parse_template(&text, &wl).unwrap();
    assert_eq!(slots.len(), 24);
    assert!(matches!(slots[2], TemplateSlot::Any));
    match &slots[7] {
        TemplateSlot::OneOf(v) => assert_eq!(v, &vec![9, 3, 100]),
        _ => panic!("expected alternatives"),
    }
    assert!(matches!(slots[0], TemplateSlot::Word(0)));
    assert!(matches!(slots[23], TemplateSlot::Word(115)));
    let space = build_search_space(&slots).unwrap();
    assert_eq!(space.complexity, 2048 * 3);
    assert_eq!(space.unknown_indexes, vec![2, 7]);
}

#[test]
fn template_text_errors() {
    let wl = test_wordlist();
    let short: Vec<String> = (0..23).map(|i| format!("w{}", i)).collect();
    assert_eq!(parse_template(&short.join(" "), &wl).err(), Some(TemplateError::WrongWordCount));
    let mut words: Vec<String> = (0..24).map(|i| format!("w{}", i)).collect();
    words[4] = String::from("nope");
    assert_eq!(parse_template(&words.join(" "), &wl).err(), Some(TemplateError::UnknownWord));
    words[4] = String::from("w1||w2");
    assert_eq!(parse_template(&words.join(" "), &wl).err(), Some(TemplateError::UnknownWord));
    assert!(token_slot(&String::from("x"), &wl).is_none());
    assert!(matches!(token_slot(&String::from("w7"), &wl), Some(TemplateSlot::Word(7))));
}

#[test]
fn ledger_presence_is_a_match() {
    let value: [u8; 3] = [1, 2, 3];
    assert_eq!(brute::oracle::ledger_outcome(Ok(Some(&value[..]))), Ok(true));
    assert_eq!(brute::oracle::ledger_outcome(Ok(Some(&[][..]))), Ok(true));
    assert_eq!(brute::oracle::ledger_outcome(Ok(None)), Ok(false));
    assert_eq!(
        brute::oracle::ledger_outcome(Err(heed::Error::InvalidDatabaseTyping)),
        Err(OracleError::StoreRead)
    );
}
