use vstd::prelude::*;
use vstd::string::*;
use crate::config::ApiConfig;
use crate::text::text_eq;
use crate::text::begins_with;
use crate::key::escape;
use crate::query::url_escape;
use crate::query::spec_url_escape;
use crate::query::lemma_value_ends_at_mark;
use crate::key::spec_vote_key;
use crate::key::spec_key_prefix;
use crate::key::lemma_vote_key_injective;
use std::time::Duration;
use std::time::SystemTime;
use std::time::UNIX_EPOCH;

verus! {

/// A category in which ballots are cast. `extra` carries free-form JSON text.
#[derive(Debug)]
pub struct Category {
    pub slug: String,
    pub name: String,
    pub extra: Option<String>,
}

impl Clone for Category {
    fn clone(&self) -> (r: Self)
        ensures
            r.slug@ == self.slug@,
            r.name@ == self.name@,
            opt_text(r.extra) == opt_text(self.extra),
    {
        Category {
            slug: self.slug.clone(),
            name: self.name.clone(),
            extra: clone_opt_text(&self.extra),
        }
    }
}

/// A candidate that ballots can name. `extra` carries free-form JSON text.
#[derive(Debug)]
pub struct Candidate {
    pub slug: String,
    pub name: String,
    pub description: String,
    pub image_url: Option<String>,
    pub extra: Option<String>,
}

impl Clone for Candidate {
    fn clone(&self) -> (r: Self)
        ensures
            r.slug@ == self.slug@,
            r.name@ == self.name@,
            r.description@ == self.description@,
            opt_text(r.image_url) == opt_text(self.image_url),
            opt_text(r.extra) == opt_text(self.extra),
    {
        Candidate {
            slug: self.slug.clone(),
            name: self.name.clone(),
            description: self.description.clone(),
            image_url: clone_opt_text(&self.image_url),
            extra: clone_opt_text(&self.extra),
        }
    }
}

/// A signed ballot: one address choosing one candidate within one category.
/// `msg`, `signature` and `random` are base16 text; `extra` carries free-form
/// JSON text.
#[derive(Debug)]
pub struct Vote {
    pub time_ms: u128,
    pub addr: String,
    pub msg: String,
    pub signature: String,
    pub random: String,
    pub sig_format: String,
    pub candidate_slug: String,
    pub category_slug: String,
    pub extra: Option<String>,
}

/// What a ballot says, as mathematical values.
pub ghost struct VoteView {
    pub time_ms: u128,
    pub addr: Seq<char>,
    pub msg: Seq<char>,
    pub signature: Seq<char>,
    pub random: Seq<char>,
    pub sig_format: Seq<char>,
    pub candidate_slug: Seq<char>,
    pub category_slug: Seq<char>,
    pub extra: Option<Seq<char>>,
}

/// The characters of an optional text.
pub open spec fn opt_text(o: Option<String>) -> Option<Seq<char>> {
    match o {
        Some(s) => Some(s@),
        None => None,
    }
}

/// A copy of an optional text.
pub fn clone_opt_text(o: &Option<String>) -> (r: Option<String>)
    ensures
        opt_text(r) == opt_text(*o),
{
    match o {
        Some(s) => Some(s.clone()),
        None => None,
    }
}

impl View for Vote {
    type V = VoteView;

    open spec fn view(&self) -> VoteView {
        VoteView {
            time_ms: self.time_ms,
            addr: self.addr@,
            msg: self.msg@,
            signature: self.signature@,
            random: self.random@,
            sig_format: self.sig_format@,
            candidate_slug: self.candidate_slug@,
            category_slug: self.category_slug@,
            extra: opt_text(self.extra),
        }
    }
}

impl Clone for Vote {
    fn clone(&self) -> (r: Self)
        ensures
            r@ == self@,
    {
        Vote {
            time_ms: self.time_ms,
            addr: self.addr.clone(),
            msg: self.msg.clone(),
            signature: self.signature.clone(),
            random: self.random.clone(),
            sig_format: self.sig_format.clone(),
            candidate_slug: self.candidate_slug.clone(),
            category_slug: self.category_slug.clone(),
            extra: clone_opt_text(&self.extra),
        }
    }
}

/// The views of a sequence of ballots, in the same order.
pub open spec fn vote_views(votes: Seq<Vote>) -> Seq<VoteView> {
    votes.map_values(|v: Vote| v@)
}

/// The signature format of a ballot that names none.
pub fn default_sig_format() -> (r: String)
    ensures
        r@ == "plain"@,
{
    "plain".to_owned()
}

/// The system clock's point in time, `std::time::SystemTime`, carried
/// through as an opaque value.
#[verifier::external_type_specification]
#[verifier::external_body]
pub struct ExSystemTime(SystemTime);

/// Calls `SystemTime::now`. Nothing is claimed of the time it reads.
#[verifier::external_body]
fn wall_clock() -> (t: SystemTime) {
    SystemTime::now()
}

/// Calls `SystemTime::duration_since` with `UNIX_EPOCH`. Nothing is claimed
/// of the span; `None` stands for the error that std returns when the clock
/// reads a time before the epoch.
#[verifier::external_body]
fn since_unix_epoch(t: &SystemTime) -> (d: Option<Duration>) {
    t.duration_since(UNIX_EPOCH).ok()
}

/// Calls `Duration::as_secs`: the whole seconds of the span. Nothing is
/// claimed of the number.
#[verifier::external_body]
fn whole_secs(d: &Duration) -> (secs: u64) {
    d.as_secs()
}

/// Calls `Duration::subsec_nanos`: the part of the span below one second, in
/// nanoseconds, which std documents as less than one thousand million.
#[verifier::external_body]
fn part_nanos(d: &Duration) -> (nanos: u32)
    ensures
        nanos < 1_000_000_000,
{
    d.subsec_nanos()
}

/// The whole milliseconds in a span of `secs` seconds and `nanos`
/// nanoseconds.
pub open spec fn spec_millis(secs: u64, nanos: u32) -> int {
    secs * 1000 + nanos / 1_000_000
}

/// The whole milliseconds in a span of `secs` seconds and `nanos`
/// nanoseconds; what is left of a millisecond is cut off.
pub fn millis_of(secs: u64, nanos: u32) -> (ms: u128)
    ensures
        ms == spec_millis(secs, nanos),
{
    let whole: u128 = secs as u128;
    let part: u128 = (nanos / 1_000_000) as u128;
    whole * 1000 + part
}

/// The wall-clock time in whole milliseconds since the Unix epoch, the time
/// of a ballot that brings none; `None` where the clock reads a time before
/// the epoch. The reading itself is the clock's: what is stated is the range
/// that the seconds and nanoseconds of a span allow.
pub fn now_ms() -> (ms: Option<u128>)
    ensures
        ms matches Some(v) ==> v <= spec_millis(u64::MAX, 999_999_999),
{
    let t = wall_clock();
    match since_unix_epoch(&t) {
        Some(d) => {
            let secs = whole_secs(&d);
            let nanos = part_nanos(&d);
            Some(millis_of(secs, nanos))
        },
        None => None,
    }
}

/// The message whose signature is verified: the salt, when there is one,
/// followed by the ballot's message.
pub open spec fn spec_signed_message(v: VoteView) -> Seq<char> {
    if v.random.len() > 0 {
        v.random + v.msg
    } else {
        v.msg
    }
}

/// What follows the oracle's base address in a request about a ballot: the
/// path, then the four values of the ballot, each escaped so that it cannot
/// end its own parameter or begin another, then the fixed message encoding.
pub open spec fn spec_verify_query(v: VoteView) -> Seq<char> {
    "/api/v1/verifyMessage?message="@ + (spec_url_escape(spec_signed_message(v)) + (
    "&signerAddress="@ + (spec_url_escape(v.addr) + ("&signature="@ + (spec_url_escape(v.signature)
        + ("&signatureFormat="@ + (spec_url_escape(v.sig_format) + "&messageFormat=Base16"@)))))))
}

/// The address of the request that asks the oracle at `base` about a ballot.
pub open spec fn spec_verify_url(base: Seq<char>, v: VoteView) -> Seq<char> {
    base + spec_verify_query(v)
}

/// A request tells the four values of its ballot: two ballots with the same
/// request have the same message to verify, address, signature and
/// signature format.
pub proof fn lemma_verify_url_tells_values(base: Seq<char>, v: VoteView, w: VoteView)
    requires
        spec_verify_url(base, v) == spec_verify_url(base, w),
    ensures
        spec_signed_message(v) == spec_signed_message(w),
        v.addr == w.addr,
        v.signature == w.signature,
        v.sig_format == w.sig_format,
{
    reveal_strlit("&signerAddress=");
    reveal_strlit("&signature=");
    reveal_strlit("&signatureFormat=");
    reveal_strlit("&messageFormat=Base16");
    let head = base + "/api/v1/verifyMessage?message="@;
    let end = "&messageFormat=Base16"@;
    let v4 = spec_url_escape(v.sig_format) + end;
    let w4 = spec_url_escape(w.sig_format) + end;
    let v3 = spec_url_escape(v.signature) + ("&signatureFormat="@ + v4);
    let w3 = spec_url_escape(w.signature) + ("&signatureFormat="@ + w4);
    let v2 = spec_url_escape(v.addr) + ("&signature="@ + v3);
    let w2 = spec_url_escape(w.addr) + ("&signature="@ + w3);
    let v1 = spec_url_escape(spec_signed_message(v)) + ("&signerAddress="@ + v2);
    let w1 = spec_url_escape(spec_signed_message(w)) + ("&signerAddress="@ + w2);
    assert(spec_verify_url(base, v) =~= head + v1);
    assert(spec_verify_url(base, w) =~= head + w1);
    assert(v1 =~= (head + v1).subrange(head.len() as int, (head + v1).len() as int));
    assert(w1 =~= (head + w1).subrange(head.len() as int, (head + w1).len() as int));
    lemma_value_ends_at_mark(
        spec_signed_message(v),
        "&signerAddress="@ + v2,
        spec_signed_message(w),
        "&signerAddress="@ + w2,
    );
    let m1 = "&signerAddress="@;
    assert(v2 =~= (m1 + v2).subrange(m1.len() as int, (m1 + v2).len() as int));
    assert(w2 =~= (m1 + w2).subrange(m1.len() as int, (m1 + w2).len() as int));
    lemma_value_ends_at_mark(v.addr, "&signature="@ + v3, w.addr, "&signature="@ + w3);
    let m2 = "&signature="@;
    assert(v3 =~= (m2 + v3).subrange(m2.len() as int, (m2 + v3).len() as int));
    assert(w3 =~= (m2 + w3).subrange(m2.len() as int, (m2 + w3).len() as int));
    lemma_value_ends_at_mark(
        v.signature,
        "&signatureFormat="@ + v4,
        w.signature,
        "&signatureFormat="@ + w4,
    );
    let m3 = "&signatureFormat="@;
    assert(v4 =~= (m3 + v4).subrange(m3.len() as int, (m3 + v4).len() as int));
    assert(w4 =~= (m3 + w4).subrange(m3.len() as int, (m3 + w4).len() as int));
    lemma_value_ends_at_mark(v.sig_format, end, w.sig_format, end);
}

impl Vote {
    /// The message whose signature the oracle is asked to verify.
    pub fn signed_message(&self) -> (r: String)
        ensures
            r@ == spec_signed_message(self@),
    {
        if self.random.as_str().unicode_len() > 0 {
            let mut m = self.random.clone();
            m.append(self.msg.as_str());
            m
        } else {
            self.msg.clone()
        }
    }

    /// The address of the single request that asks the oracle at `base` whether
    /// this ballot's signature is valid.
    pub fn verify_url(&self, base: &str) -> (r: String)
        ensures
            r@ == spec_verify_url(base@, self@),
    {
        let mut url = base.to_owned();
        url.append("/api/v1/verifyMessage?message=");
        url.append(url_escape(self.signed_message().as_str()).as_str());
        url.append("&signerAddress=");
        url.append(url_escape(self.addr.as_str()).as_str());
        url.append("&signature=");
        url.append(url_escape(self.signature.as_str()).as_str());
        url.append("&signatureFormat=");
        url.append(url_escape(self.sig_format.as_str()).as_str());
        url.append("&messageFormat=Base16");
        assert(url@ =~= spec_verify_url(base@, self@));
        url
    }
}

/// Why the oracle gave no verdict.
#[derive(Debug, Clone, Copy, PartialEq, Eq, Structural)]
pub enum VerifyError {
    /// The request did not complete.
    Unreachable,
    /// The reply was neither `true` nor `false`.
    Unparseable,
}

/// What an oracle reply body means.
pub open spec fn spec_parse_verdict(body: Seq<char>) -> Result<bool, VerifyError> {
    if body == "true"@ {
        Ok(true)
    } else if body == "false"@ {
        Ok(false)
    } else {
        Err(VerifyError::Unparseable)
    }
}

/// Reads the oracle's reply body: the literal text `true` or `false`, and
/// nothing else, is a verdict.
pub fn parse_verdict(body: &str) -> (r: Result<bool, VerifyError>)
    ensures
        r == spec_parse_verdict(body@),
{
    if text_eq(body, "true") {
        Ok(true)
    } else if text_eq(body, "false") {
        Ok(false)
    } else {
        Err(VerifyError::Unparseable)
    }
}

/// What one round trip to the oracle means: no reply body is a transport
/// failure, a body is read as a verdict.
pub open spec fn spec_read_reply(reply: Option<Seq<char>>) -> Result<bool, VerifyError> {
    match reply {
        None => Err(VerifyError::Unreachable),
        Some(body) => spec_parse_verdict(body),
    }
}

/// Reads the outcome of the single request to the oracle: `None` where the
/// request failed or ran out of time, else the reply body.
pub fn read_reply(reply: Option<&str>) -> (r: Result<bool, VerifyError>)
    ensures
        r == spec_read_reply(
            match reply {
                Some(body) => Some(body@),
                None => None,
            },
        ),
{
    match reply {
        None => Err(VerifyError::Unreachable),
        Some(body) => parse_verdict(body),
    }
}

/// The name of the directory, below the data root, that holds the ballots.
pub open spec fn spec_votes_dir_name() -> Seq<char> {
    "votes"@
}

/// The directory that holds the ballots.
pub open spec fn spec_votes_path(data_path: Seq<char>) -> Seq<char> {
    data_path + "/"@ + spec_votes_dir_name()
}

/// The full storage location of the ballot of `addr` in `category`.
pub open spec fn spec_vote_path(data_path: Seq<char>, addr: Seq<char>, category: Seq<char>) -> Seq<
    char,
> {
    spec_votes_path(data_path) + "/"@ + spec_vote_key(addr, category)
}

/// Two ballots stored at the same location below one data root have the
/// same address and the same category.
pub proof fn lemma_vote_path_injective(
    data_path: Seq<char>,
    a1: Seq<char>,
    c1: Seq<char>,
    a2: Seq<char>,
    c2: Seq<char>,
)
    requires
        spec_vote_path(data_path, a1, c1) == spec_vote_path(data_path, a2, c2),
    ensures
        a1 == a2,
        c1 == c2,
{
    let d = spec_votes_path(data_path) + "/"@;
    let k1 = spec_vote_key(a1, c1);
    let k2 = spec_vote_key(a2, c2);
    assert(k1 =~= (d + k1).subrange(d.len() as int, (d + k1).len() as int));
    assert(k2 =~= (d + k2).subrange(d.len() as int, (d + k2).len() as int));
    lemma_vote_key_injective(a1, c1, a2, c2);
}

/// Whether some candidate has the slug.
pub open spec fn spec_has_candidate(candidates: Seq<Candidate>, slug: Seq<char>) -> bool {
    exists|i: int| 0 <= i < candidates.len() && (#[trigger] candidates[i]).slug@ == slug
}

/// Whether some category has the slug.
pub open spec fn spec_has_category(categories: Seq<Category>, slug: Seq<char>) -> bool {
    exists|i: int| 0 <= i < categories.len() && (#[trigger] categories[i]).slug@ == slug
}

/// The ballots, in order, whose address is exactly `addr`.
pub open spec fn spec_by_address(votes: Seq<VoteView>, addr: Seq<char>) -> Seq<VoteView> {
    votes.filter(|v: VoteView| v.addr == addr)
}

/// No two candidates share a slug.
pub open spec fn spec_candidate_slugs_distinct(candidates: Seq<Candidate>) -> bool {
    forall|i: int, j: int|
        0 <= i < j < candidates.len() ==> (#[trigger] candidates[i]).slug@ != (
        #[trigger] candidates[j]).slug@
}

/// No two categories share a slug.
pub open spec fn spec_category_slugs_distinct(categories: Seq<Category>) -> bool {
    forall|i: int, j: int|
        0 <= i < j < categories.len() ==> (#[trigger] categories[i]).slug@ != (
        #[trigger] categories[j]).slug@
}

/// Whether the slug is a key of the candidates: no two of them share one.
pub fn candidate_slugs_distinct(candidates: &Vec<Candidate>) -> (r: bool)
    ensures
        r == spec_candidate_slugs_distinct(candidates@),
{
    let mut j: usize = 0;
    while j < candidates.len()
        invariant
            j <= candidates.len(),
            forall|a: int, b: int|
                0 <= a < b < j ==> (#[trigger] candidates@[a]).slug@ != (
                #[trigger] candidates@[b]).slug@,
        decreases candidates.len() - j,
    {
        let mut i: usize = 0;
        while i < j
            invariant
                i <= j < candidates.len(),
                forall|a: int|
                    0 <= a < i ==> (#[trigger] candidates@[a]).slug@ != candidates@[j as int].slug@,
            decreases j - i,
        {
            if text_eq(candidates[i].slug.as_str(), candidates[j].slug.as_str()) {
                return false;
            }
            i += 1;
        }
        j += 1;
    }
    true
}

/// Whether the slug is a key of the categories: no two of them share one.
pub fn category_slugs_distinct(categories: &Vec<Category>) -> (r: bool)
    ensures
        r == spec_category_slugs_distinct(categories@),
{
    let mut j: usize = 0;
    while j < categories.len()
        invariant
            j <= categories.len(),
            forall|a: int, b: int|
                0 <= a < b < j ==> (#[trigger] categories@[a]).slug@ != (
                #[trigger] categories@[b]).slug@,
        decreases categories.len() - j,
    {
        let mut i: usize = 0;
        while i < j
            invariant
                i <= j < categories.len(),
                forall|a: int|
                    0 <= a < i ==> (#[trigger] categories@[a]).slug@ != categories@[j as int].slug@,
            decreases j - i,
        {
            if text_eq(categories[i].slug.as_str(), categories[j].slug.as_str()) {
                return false;
            }
            i += 1;
        }
        j += 1;
    }
    true
}

/// The service's data: the data root and the two catalogs, fixed once loaded.
pub struct ApiData {
    pub data_path: String,
    pub candidates: Vec<Candidate>,
    pub categories: Vec<Category>,
}

impl ApiData {
    /// The invariant of the service's data: within each catalog the slug is
    /// a key.
    pub open spec fn wf(&self) -> bool {
        &&& spec_candidate_slugs_distinct(self.candidates@)
        &&& spec_category_slugs_distinct(self.categories@)
    }

    /// The data of a service configured by `config`, with the catalogs that
    /// were read from its data root. No catalog may hold a slug twice.
    pub fn init(config: &ApiConfig, candidates: Vec<Candidate>, categories: Vec<Category>) -> (r:
        Self)
        requires
            spec_candidate_slugs_distinct(candidates@),
            spec_category_slugs_distinct(categories@),
        ensures
            r.wf(),
            r.data_path@ == config.data_path@,
            r.candidates == candidates,
            r.categories == categories,
    {
        ApiData { data_path: config.data_path.clone(), candidates, categories }
    }

    /// The data of a service as `init` gives it, or `None` where a catalog
    /// holds a slug twice.
    pub fn try_init(config: &ApiConfig, candidates: Vec<Candidate>, categories: Vec<Category>) -> (r:
        Option<Self>)
        ensures
            r is Some <==> spec_candidate_slugs_distinct(candidates@)
                && spec_category_slugs_distinct(categories@),
            r matches Some(data) ==> data.wf() && data.data_path@ == config.data_path@
                && data.candidates == candidates && data.categories == categories,
    {
        if candidate_slugs_distinct(&candidates) && category_slugs_distinct(&categories) {
            Some(ApiData::init(config, candidates, categories))
        } else {
            None
        }
    }

    /// The directory that holds the ballots.
    pub fn votes_path(&self) -> (r: String)
        ensures
            r@ == spec_votes_path(self.data_path@),
    {
        let mut p = self.data_path.clone();
        p.append("/");
        p.append("votes");
        p
    }

    /// The storage location of the ballot of `addr` in `category`: an entry of
    /// the votes directory whose name tells the address and the category.
    pub fn make_addr_vote_path(&self, addr: &str, category: &str) -> (r: String)
        ensures
            r@ == spec_vote_path(self.data_path@, addr@, category@),
    {
        let mut name = escape(addr);
        name.append("-");
        name.append(escape(category).as_str());
        name.append(".json");
        let mut p = self.votes_path();
        p.append("/");
        p.append(name.as_str());
        p
    }

    /// Whether a stored entry named `file_name` is named as the ballots of
    /// `addr` are.
    pub fn entry_may_belong(file_name: &str, addr: &str) -> (r: bool)
        ensures
            r == spec_key_prefix(addr@).is_prefix_of(file_name@),
    {
        let mut prefix = escape(addr);
        prefix.append("-");
        begins_with(file_name, prefix.as_str())
    }

    /// Whether the candidate catalog has the slug.
    pub fn has_candidate(&self, slug: &str) -> (r: bool)
        ensures
            r == spec_has_candidate(self.candidates@, slug@),
    {
        let mut i: usize = 0;
        while i < self.candidates.len()
            invariant
                i <= self.candidates.len(),
                forall|k: int| 0 <= k < i ==> (#[trigger] self.candidates@[k]).slug@ != slug@,
            decreases self.candidates.len() - i,
        {
            if text_eq(self.candidates[i].slug.as_str(), slug) {
                return true;
            }
            i += 1;
        }
        false
    }

    /// Whether the category catalog has the slug.
    pub fn has_category(&self, slug: &str) -> (r: bool)
        ensures
            r == spec_has_category(self.categories@, slug@),
    {
        let mut i: usize = 0;
        while i < self.categories.len()
            invariant
                i <= self.categories.len(),
                forall|k: int| 0 <= k < i ==> (#[trigger] self.categories@[k]).slug@ != slug@,
            decreases self.categories.len() - i,
        {
            if text_eq(self.categories[i].slug.as_str(), slug) {
                return true;
            }
            i += 1;
        }
        false
    }
}

/// Keeps, in order, the ballots whose address is exactly `addr`.
pub fn select_by_address(found: &Vec<Vote>, addr: &str) -> (r: Vec<Vote>)
    ensures
        vote_views(r@) == spec_by_address(vote_views(found@), addr@),
{
    let mut kept: Vec<Vote> = Vec::new();
    let mut i: usize = 0;
    while i < found.len()
        invariant
            i <= found.len(),
            vote_views(kept@) == spec_by_address(vote_views(found@.take(i as int)), addr@),
        decreases found.len() - i,
    {
        proof {
            lemma_by_address_step(found@, i as int, addr@);
        }
        if text_eq(found[i].addr.as_str(), addr) {
            kept.push(found[i].clone());
        }
        i += 1;
    }
    assert(found@.take(found.len() as int) =~= found@);
    kept
}

/// Filtering one ballot more either appends it or changes nothing.
pub proof fn lemma_by_address_step(votes: Seq<Vote>, i: int, addr: Seq<char>)
    requires
        0 <= i < votes.len(),
    ensures
        spec_by_address(vote_views(votes.take(i + 1)), addr) == if votes[i]@.addr == addr {
            spec_by_address(vote_views(votes.take(i)), addr).push(votes[i]@)
        } else {
            spec_by_address(vote_views(votes.take(i)), addr)
        },
{
    reveal(Seq::filter);
    let s = vote_views(votes.take(i + 1));
    assert(s.drop_last() =~= vote_views(votes.take(i)));
    assert(s.last() == votes[i]@);
}

} // verus!
