use vote_api::config::ApiConfig;
use vote_api::data::default_sig_format;
use vote_api::data::candidate_slugs_distinct;
use vote_api::data::category_slugs_distinct;
use vote_api::data::millis_of;
use vote_api::data::now_ms;
use vote_api::key::escape;
use vote_api::query::hex_digit;
use vote_api::query::url_escape;
use vote_api::data::parse_verdict;
use vote_api::data::read_reply;
use vote_api::data::select_by_address;
use vote_api::data::ApiData;
use vote_api::data::Candidate;
use vote_api::data::Category;
use vote_api::data::VerifyError;
use vote_api::data::Vote;
use vote_api::text::begins_with;
use vote_api::text::text_eq;

fn candidate(slug: &str) -> Candidate {
    Candidate {
        slug: slug.to_string(),
        name: format!("Name of {slug}"),
        description: String::new(),
        image_url: None,
        extra: None,
    }
}

fn category(slug: &str) -> Category {
    Category { slug: slug.to_string(), name: format!("Category {slug}"), extra: None }
}

fn config(data_path: &str) -> ApiConfig {
    ApiConfig {
        ip: "127.0.0.1".to_string(),
        port: 8080,
        data_path: data_path.to_string(),
        explorer_api_url: "http://oracle.test".to_string(),
    }
}

fn ballot(addr: &str, candidate_slug: &str, category_slug: &str) -> Vote {
    Vote {
        time_ms: 1_700_000_000_000,
        addr: addr.to_string(),
        msg: "deadbeef".to_string(),
        signature: "feedface".to_string(),
        random: String::new(),
        sig_format: default_sig_format(),
        candidate_slug: candidate_slug.to_string(),
        category_slug: category_slug.to_string(),
        extra: None,
    }
}

#[test]
fn default_sig_format_is_plain() {
    assert_eq!(default_sig_format(), "plain");
}

#[test]
fn now_ms_reads_a_time_after_the_epoch() {
    let reading = now_ms();
    assert!(reading.is_some());
    assert!(reading.unwrap() > 0);
    assert!(reading.unwrap() <= 18_446_744_073_709_551_615_u128 * 1000 + 999);
}

#[test]
fn milliseconds_cut_off_what_is_left() {
    assert_eq!(millis_of(0, 0), 0);
    assert_eq!(millis_of(0, 999_999), 0);
    assert_eq!(millis_of(0, 1_000_000), 1);
    assert_eq!(millis_of(1, 999_999_999), 1999);
    assert_eq!(millis_of(1_700_000_000, 123_456_789), 1_700_000_000_123);
    assert_eq!(
        millis_of(u64::MAX, 999_999_999),
        18_446_744_073_709_551_615_u128 * 1000 + 999
    );
}

#[test]
fn escaping_rewrites_only_the_three_marks() {
    assert_eq!(escape(""), "");
    assert_eq!(escape("A1"), "A1");
    assert_eq!(escape("addr1qxy.z_9"), "addr1qxy.z_9");
    assert_eq!(escape("a-b"), "a%2Db");
    assert_eq!(escape("a/b"), "a%2Fb");
    assert_eq!(escape("100%"), "100%25");
    assert_eq!(escape("%2D"), "%252D");
    assert_eq!(escape("-/%"), "%2D%2F%25");
    assert_eq!(escape("hä-st"), "hä%2Dst");
}

#[test]
fn keys_that_join_alike_get_different_paths() {
    let data = ApiData::init(&config("./data"), vec![], vec![]);
    assert_eq!(data.make_addr_vote_path("a-b", "c"), "./data/votes/a%2Db-c.json");
    assert_eq!(data.make_addr_vote_path("a", "b-c"), "./data/votes/a-b%2Dc.json");
    assert_ne!(data.make_addr_vote_path("a-b", "c"), data.make_addr_vote_path("a", "b-c"));
    assert_eq!(data.make_addr_vote_path("../x", "2024"), "./data/votes/..%2Fx-2024.json");
    assert_eq!(data.make_addr_vote_path("a", "x/y"), "./data/votes/a-x%2Fy.json");
    assert_ne!(data.make_addr_vote_path("a%2Db", "c"), data.make_addr_vote_path("a-b", "c"));
}

#[test]
fn repeated_slugs_are_found() {
    assert!(candidate_slugs_distinct(&vec![]));
    assert!(candidate_slugs_distinct(&vec![candidate("alice")]));
    assert!(candidate_slugs_distinct(&vec![candidate("alice"), candidate("bob"), candidate("al")]));
    assert!(!candidate_slugs_distinct(&vec![candidate("alice"), candidate("bob"), candidate("alice")]));
    assert!(!candidate_slugs_distinct(&vec![candidate("bob"), candidate("bob")]));
    assert!(category_slugs_distinct(&vec![]));
    assert!(category_slugs_distinct(&vec![category("2024"), category("2025")]));
    assert!(!category_slugs_distinct(&vec![category("2024"), category("2025"), category("2025")]));
}

#[test]
fn init_takes_the_data_root_from_the_config() {
    let data = ApiData::init(&config("/srv/data"), vec![candidate("alice")], vec![category("2024")]);
    assert_eq!(data.data_path, "/srv/data");
    assert_eq!(data.candidates.len(), 1);
    assert_eq!(data.candidates[0].slug, "alice");
    assert_eq!(data.categories.len(), 1);
    assert_eq!(data.categories[0].slug, "2024");
}

#[test]
fn votes_path_is_below_the_data_root() {
    let data = ApiData::init(&config("/srv/data"), vec![], vec![]);
    assert_eq!(data.votes_path(), "/srv/data/votes");
}

#[test]
fn vote_path_names_address_and_category() {
    let data = ApiData::init(&config("./data"), vec![], vec![]);
    assert_eq!(data.make_addr_vote_path("A1", "2024"), "./data/votes/A1-2024.json");
    assert_eq!(data.make_addr_vote_path("", ""), "./data/votes/-.json");
}

#[test]
fn catalog_lookup_is_by_exact_slug() {
    let data = ApiData::init(
        &config("d"),
        vec![candidate("alice"), candidate("bob")],
        vec![category("2024"), category("2025")],
    );
    assert!(data.has_candidate("alice"));
    assert!(data.has_candidate("bob"));
    assert!(!data.has_candidate("ali"));
    assert!(!data.has_candidate("alice "));
    assert!(!data.has_candidate("2024"));
    assert!(data.has_category("2025"));
    assert!(!data.has_category("alice"));
    assert!(!data.has_category(""));
}

#[test]
fn empty_catalog_has_nothing() {
    let data = ApiData::init(&config("d"), vec![], vec![]);
    assert!(!data.has_candidate("alice"));
    assert!(!data.has_category("2024"));
}

#[test]
fn entry_names_are_matched_by_the_address_part() {
    assert!(ApiData::entry_may_belong("A1-2024.json", "A1"));
    assert!(!ApiData::entry_may_belong("A10-2024.json", "A1"));
    assert!(!ApiData::entry_may_belong("B1-2024.json", "A1"));
    assert!(!ApiData::entry_may_belong("A", "A1"));
    assert!(!ApiData::entry_may_belong("A1", "A1"));
    assert!(!ApiData::entry_may_belong("anything", ""));
    assert!(ApiData::entry_may_belong("-2024.json", ""));
    assert!(ApiData::entry_may_belong("a%2Db-c.json", "a-b"));
    assert!(!ApiData::entry_may_belong("a-b%2Dc.json", "a-b"));
    assert!(ApiData::entry_may_belong("a-b%2Dc.json", "a"));
}

#[test]
fn text_helpers_compare_characters() {
    assert!(text_eq("", ""));
    assert!(text_eq("häst", "häst"));
    assert!(!text_eq("true", "True"));
    assert!(begins_with("häst-1", "häs"));
    assert!(!begins_with("hast-1", "häs"));
    assert!(begins_with("abc", "abc"));
    assert!(!begins_with("ab", "abc"));
}

#[test]
fn signed_message_prepends_the_salt() {
    let mut v = ballot("A1", "alice", "2024");
    assert_eq!(v.signed_message(), "deadbeef");
    v.random = "0a0b".to_string();
    assert_eq!(v.signed_message(), "0a0bdeadbeef");
}

#[test]
fn verify_url_carries_every_field() {
    let mut v = ballot("A1", "alice", "2024");
    assert_eq!(
        v.verify_url("http://oracle.test"),
        "http://oracle.test/api/v1/verifyMessage?message=deadbeef&signerAddress=A1&signature=feedface&signatureFormat=plain&messageFormat=Base16"
    );
    v.random = "cafe".to_string();
    v.sig_format = "cose".to_string();
    assert_eq!(
        v.verify_url("https://x"),
        "https://x/api/v1/verifyMessage?message=cafedeadbeef&signerAddress=A1&signature=feedface&signatureFormat=cose&messageFormat=Base16"
    );
}

#[test]
fn oracle_reply_is_true_or_false_and_nothing_else() {
    assert_eq!(parse_verdict("true"), Ok(true));
    assert_eq!(parse_verdict("false"), Ok(false));
    assert_eq!(parse_verdict("True"), Err(VerifyError::Unparseable));
    assert_eq!(parse_verdict("true\n"), Err(VerifyError::Unparseable));
    assert_eq!(parse_verdict(""), Err(VerifyError::Unparseable));
    assert_eq!(parse_verdict("1"), Err(VerifyError::Unparseable));
}

#[test]
fn missing_reply_is_unreachable() {
    assert_eq!(read_reply(None), Err(VerifyError::Unreachable));
    assert_eq!(read_reply(Some("true")), Ok(true));
    assert_eq!(read_reply(Some("false")), Ok(false));
    assert_eq!(read_reply(Some("<html>")), Err(VerifyError::Unparseable));
}

#[test]
fn selection_keeps_exactly_the_address() {
    let found = vec![
        ballot("A1", "alice", "2024"),
        ballot("A10", "alice", "2024"),
        ballot("A1", "bob", "2025"),
        ballot("B", "bob", "2025"),
    ];
    let kept = select_by_address(&found, "A1");
    assert_eq!(kept.len(), 2);
    assert_eq!(kept[0].addr, "A1");
    assert_eq!(kept[0].category_slug, "2024");
    assert_eq!(kept[0].candidate_slug, "alice");
    assert_eq!(kept[1].addr, "A1");
    assert_eq!(kept[1].category_slug, "2025");
    assert_eq!(kept[1].candidate_slug, "bob");
    assert_eq!(select_by_address(&vec![ballot("A1", "alice", "2024")], "A").len(), 0);
}

#[test]
fn cloned_ballot_keeps_every_field() {
    let mut v = ballot("A1", "alice", "2024");
    v.random = "00ff".to_string();
    v.extra = Some("{\"k\":1}".to_string());
    let c = v.clone();
    assert_eq!(c.time_ms, 1_700_000_000_000);
    assert_eq!(c.addr, "A1");
    assert_eq!(c.msg, "deadbeef");
    assert_eq!(c.signature, "feedface");
    assert_eq!(c.random, "00ff");
    assert_eq!(c.sig_format, "plain");
    assert_eq!(c.candidate_slug, "alice");
    assert_eq!(c.category_slug, "2024");
    assert_eq!(c.extra, Some("{\"k\":1}".to_string()));
}

#[test]
fn query_values_keep_letters_and_digits_and_escape_the_rest() {
    assert_eq!(url_escape(""), "");
    assert_eq!(url_escape("deadbeef"), "deadbeef");
    assert_eq!(url_escape("AZaz09-._~"), "AZaz09-._~");
    assert_eq!(url_escape("a&b=c"), "a%26b%3Dc");
    assert_eq!(url_escape("#?+/ %"), "%23%3F%2B%2F%20%25");
    assert_eq!(url_escape("a\nb\tc"), "a%0Ab%09c");
    assert_eq!(url_escape("%26"), "%2526");
    assert_eq!(url_escape("hä"), "hä");
    assert_eq!(url_escape("\u{7f}@[`{"), "%7F%40%5B%60%7B");
}

#[test]
fn hex_digits_are_upper_case() {
    assert_eq!(hex_digit(0), "0");
    assert_eq!(hex_digit(9), "9");
    assert_eq!(hex_digit(10), "A");
    assert_eq!(hex_digit(15), "F");
}

#[test]
fn a_value_cannot_add_or_replace_a_parameter() {
    let mut v = ballot("A1", "alice", "2024");
    v.sig_format = "plain&signerAddress=B2".to_string();
    assert_eq!(
        v.verify_url("http://oracle.test"),
        "http://oracle.test/api/v1/verifyMessage?message=deadbeef&signerAddress=A1&signature=feedface&signatureFormat=plain%26signerAddress%3DB2&messageFormat=Base16"
    );
    let mut w = ballot("A 1/x#y", "alice", "2024");
    w.random = "0a&".to_string();
    w.signature = "fe=ed?".to_string();
    assert_eq!(
        w.verify_url("http://oracle.test"),
        "http://oracle.test/api/v1/verifyMessage?message=0a%26deadbeef&signerAddress=A%201%2Fx%23y&signature=fe%3Ded%3F&signatureFormat=plain&messageFormat=Base16"
    );
}

#[test]
fn requests_of_different_values_differ() {
    let mut v = ballot("A1", "alice", "2024");
    v.signature = "a&signatureFormat=b".to_string();
    v.sig_format = "c".to_string();
    let mut w = ballot("A1", "alice", "2024");
    w.signature = "a".to_string();
    w.sig_format = "b&signatureFormat=c".to_string();
    assert_ne!(v.verify_url("http://o"), w.verify_url("http://o"));
}

#[test]
fn catalogs_with_a_repeated_slug_are_refused() {
    assert!(ApiData::try_init(&config("d"), vec![candidate("alice")], vec![category("2024")]).is_some());
    assert!(ApiData::try_init(&config("d"), vec![], vec![]).is_some());
    assert!(ApiData::try_init(
        &config("d"),
        vec![candidate("alice"), candidate("alice")],
        vec![category("2024")]
    )
    .is_none());
    assert!(ApiData::try_init(
        &config("d"),
        vec![candidate("alice")],
        vec![category("2024"), category("2025"), category("2024")]
    )
    .is_none());
    let data = ApiData::try_init(&config("/srv"), vec![candidate("alice")], vec![]).unwrap();
    assert_eq!(data.data_path, "/srv");
    assert_eq!(data.candidates[0].slug, "alice");
}
