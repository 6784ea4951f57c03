//! Read-model over locally stored AI-assistant session logs: entry
//! admission, cost computation, per-session aggregation and the dashboard
//! selection state. Scanning log files and decoding JSON belong to the
//! caller; this module works on plain values.
//!
//! Costs are carried in picodollars (10^-12 USD) so that every per-token
//! price is a plain integer.

use vstd::prelude::*;
use vstd::string::StrSliceExecFns;
use vstd::string::StringExecFns;
use crate::text::{contains_ci, contains_ignore_ascii_case, dec_digits, split_char, split_seq,
    str_eq, u64_to_string};

verus! {

broadcast use vstd::string::group_string_axioms;

/// Milliseconds of inactivity after which a session stops counting as live.
pub const ACTIVE_THRESHOLD_MS: i64 = 180000;

/// The timestamp an RFC 3339 string denotes, in milliseconds since the
/// epoch; a function of the string alone.
pub uninterp spec fn rfc3339_millis(s: Seq<char>) -> Option<i64>;

/// Relies on chrono's `DateTime::parse_from_rfc3339`: parses a fixed-offset
/// RFC 3339 timestamp, whose value depends on the string alone.
#[verifier::external_body]
fn parse_rfc3339_millis(s: &str) -> (r: Option<i64>)
    ensures
        r == rfc3339_millis(s@),
{
    match chrono::DateTime::parse_from_rfc3339(s) {
        Ok(dt) => Some(dt.timestamp_millis()),
        Err(_) => None,
    }
}

/// One admitted usage entry of a session log.
#[derive(Debug, Clone)]
pub struct UsageEntry {
    /// Timestamp, milliseconds since the epoch.
    pub timestamp_ms: i64,
    pub session_id: String,
    pub input_tokens: u64,
    pub output_tokens: u64,
    pub cache_creation_tokens: u64,
    pub cache_read_tokens: u64,
    /// Cost in picodollars.
    pub cost_picodollars: u64,
    pub model: String,
    pub cwd: String,
    pub project_path: String,
    /// Prompt text, present only on user entries.
    pub user_prompt: Option<String>,
}

/// Saturating u64 sum.
pub open spec fn sat_add(a: int, b: int) -> int {
    if a + b > u64::MAX {
        u64::MAX as int
    } else {
        a + b
    }
}

fn sat_add_exec(a: u64, b: u64) -> (r: u64)
    ensures
        r as int == sat_add(a as int, b as int),
{
    if a > u64::MAX - b {
        u64::MAX
    } else {
        a + b
    }
}

impl UsageEntry {
    /// All tokens of the entry, saturating.
    pub fn total_tokens(&self) -> (r: u64)
        ensures
            r as int == sat_add(
                sat_add(
                    sat_add(self.input_tokens as int, self.output_tokens as int),
                    self.cache_creation_tokens as int,
                ),
                self.cache_read_tokens as int,
            ),
    {
        sat_add_exec(
            sat_add_exec(
                sat_add_exec(self.input_tokens, self.output_tokens),
                self.cache_creation_tokens,
            ),
            self.cache_read_tokens,
        )
    }
}

/// Per-model aggregated statistics.
#[derive(Debug, Clone, Copy, PartialEq)]
pub struct ModelStats {
    pub input_tokens: u64,
    pub output_tokens: u64,
    pub cache_creation_tokens: u64,
    pub cache_read_tokens: u64,
    /// Cost in picodollars.
    pub cost_picodollars: u64,
    pub entries_count: u64,
}

impl Default for ModelStats {
    /// All-zero statistics.
    fn default() -> (r: Self)
        ensures
            r.input_tokens == 0 && r.output_tokens == 0 && r.cache_creation_tokens == 0
                && r.cache_read_tokens == 0 && r.cost_picodollars == 0 && r.entries_count == 0,
    {
        ModelStats {
            input_tokens: 0,
            output_tokens: 0,
            cache_creation_tokens: 0,
            cache_read_tokens: 0,
            cost_picodollars: 0,
            entries_count: 0,
        }
    }
}

impl ModelStats {
    /// All tokens, saturating.
    pub fn total_tokens(&self) -> (r: u64)
        ensures
            r as int == sat_add(
                sat_add(
                    sat_add(self.input_tokens as int, self.output_tokens as int),
                    self.cache_creation_tokens as int,
                ),
                self.cache_read_tokens as int,
            ),
    {
        sat_add_exec(
            sat_add_exec(
                sat_add_exec(self.input_tokens, self.output_tokens),
                self.cache_creation_tokens,
            ),
            self.cache_read_tokens,
        )
    }

    /// Fold one entry into the statistics, saturating each counter.
    pub fn add_entry(&mut self, entry: &UsageEntry)
        ensures
            final(self).input_tokens as int == sat_add(
                old(self).input_tokens as int,
                entry.input_tokens as int,
            ),
            final(self).output_tokens as int == sat_add(
                old(self).output_tokens as int,
                entry.output_tokens as int,
            ),
            final(self).cache_creation_tokens as int == sat_add(
                old(self).cache_creation_tokens as int,
                entry.cache_creation_tokens as int,
            ),
            final(self).cache_read_tokens as int == sat_add(
                old(self).cache_read_tokens as int,
                entry.cache_read_tokens as int,
            ),
            final(self).cost_picodollars as int == sat_add(
                old(self).cost_picodollars as int,
                entry.cost_picodollars as int,
            ),
            final(self).entries_count as int == sat_add(old(self).entries_count as int, 1),
    {
        self.input_tokens = sat_add_exec(self.input_tokens, entry.input_tokens);
        self.output_tokens = sat_add_exec(self.output_tokens, entry.output_tokens);
        self.cache_creation_tokens = sat_add_exec(
            self.cache_creation_tokens,
            entry.cache_creation_tokens,
        );
        self.cache_read_tokens = sat_add_exec(self.cache_read_tokens, entry.cache_read_tokens);
        self.cost_picodollars = sat_add_exec(self.cost_picodollars, entry.cost_picodollars);
        self.entries_count = sat_add_exec(self.entries_count, 1);
    }
}

/// Per-token input price of a model, in picodollars: the opus tier, the
/// haiku tier, and the sonnet tier for everything else.
pub open spec fn input_price_pico(model: Seq<char>) -> int {
    if contains_ci(model, "opus"@) {
        15000000
    } else if contains_ci(model, "haiku"@) {
        250000
    } else {
        3000000
    }
}

/// Per-token output price of a model, in picodollars.
pub open spec fn output_price_pico(model: Seq<char>) -> int {
    if contains_ci(model, "opus"@) {
        75000000
    } else if contains_ci(model, "haiku"@) {
        1250000
    } else {
        15000000
    }
}

/// The cost of an entry in picodollars: tokens priced per model tier, cache
/// writes at 1.25x the input price and cache reads at a tenth of it,
/// saturating at the top of `u64`.
pub open spec fn cost_of(
    model: Seq<char>,
    input: int,
    output: int,
    cache_create: int,
    cache_read: int,
) -> int {
    let ip = input_price_pico(model);
    let op = output_price_pico(model);
    sat_add(
        sat_add(
            sat_add(sat_mul(input, ip), sat_mul(output, op)),
            sat_mul(cache_create, ip * 5 / 4),
        ),
        sat_mul(cache_read, ip / 10),
    )
}

/// Saturating u64 product.
pub open spec fn sat_mul(a: int, b: int) -> int {
    if a * b > u64::MAX {
        u64::MAX as int
    } else {
        a * b
    }
}

fn sat_mul_exec(a: u64, b: u64) -> (r: u64)
    ensures
        r as int == sat_mul(a as int, b as int),
{
    proof {
        assert((a as int) * (b as int) <= (u64::MAX as int) * (u64::MAX as int))
            by (nonlinear_arith)
            requires
                a as int <= u64::MAX as int,
                b as int <= u64::MAX as int,
        ;
    }
    let p: u128 = (a as u128) * (b as u128);
    if p > u64::MAX as u128 {
        u64::MAX
    } else {
        p as u64
    }
}

/// Pricing of assistant usage.
pub struct Pricing {}

impl Pricing {
    /// Cost of one entry in picodollars, from its model tier and token
    /// counts.
    pub fn calculate_cost(
        model: &str,
        input: u64,
        output: u64,
        cache_create: u64,
        cache_read: u64,
    ) -> (r: u64)
        ensures
            r as int == cost_of(
                model@,
                input as int,
                output as int,
                cache_create as int,
                cache_read as int,
            ),
    {
        let is_opus = contains_ignore_ascii_case(model, "opus");
        let is_haiku = contains_ignore_ascii_case(model, "haiku");
        let ip: u64 = if is_opus {
            15000000
        } else if is_haiku {
            250000
        } else {
            3000000
        };
        let op: u64 = if is_opus {
            75000000
        } else if is_haiku {
            1250000
        } else {
            15000000
        };
        let cc_price = ip / 4 * 5;
        proof {
            assert(cc_price == input_price_pico(model@) * 5 / 4);
        }
        let cr_price = ip / 10;
        sat_add_exec(
            sat_add_exec(
                sat_add_exec(sat_mul_exec(input, ip), sat_mul_exec(output, op)),
                sat_mul_exec(cache_create, cc_price),
            ),
            sat_mul_exec(cache_read, cr_price),
        )
    }
}

/// The canonical tracking name of a model, compared ignoring ASCII case:
/// opus, sonnet and haiku tiers with their version suffixes; anything else
/// keeps its own name.
pub open spec fn normalized_model(s: Seq<char>) -> Seq<char> {
    if contains_ci(s, "opus"@) {
        if contains_ci(s, "4.5"@) || contains_ci(s, "4-5"@) || contains_ci(s, "4_5"@) {
            "opus-4.5"@
        } else if contains_ci(s, "4-"@) || contains_ci(s, "4."@) || contains_ci(s, "4_"@) {
            "opus-4"@
        } else {
            "opus-3"@
        }
    } else if contains_ci(s, "sonnet"@) {
        if contains_ci(s, "4-"@) || contains_ci(s, "4."@) || contains_ci(s, "4_"@) {
            "sonnet-4"@
        } else if contains_ci(s, "3.5"@) || contains_ci(s, "3-5"@) || contains_ci(s, "3_5"@) {
            "sonnet-3.5"@
        } else {
            "sonnet-3"@
        }
    } else if contains_ci(s, "haiku"@) {
        if contains_ci(s, "3.5"@) || contains_ci(s, "3-5"@) || contains_ci(s, "3_5"@) {
            "haiku-3.5"@
        } else {
            "haiku-3"@
        }
    } else {
        s
    }
}

/// Normalise a model name for consistent tracking.
pub fn normalize_model_name(model: &str) -> (r: String)
    ensures
        r@ == normalized_model(model@),
{
    if contains_ignore_ascii_case(model, "opus") {
        if contains_ignore_ascii_case(model, "4.5") || contains_ignore_ascii_case(model, "4-5")
            || contains_ignore_ascii_case(model, "4_5") {
            String::from_str("opus-4.5")
        } else if contains_ignore_ascii_case(model, "4-") || contains_ignore_ascii_case(
            model,
            "4.",
        ) || contains_ignore_ascii_case(model, "4_") {
            String::from_str("opus-4")
        } else {
            String::from_str("opus-3")
        }
    } else if contains_ignore_ascii_case(model, "sonnet") {
        if contains_ignore_ascii_case(model, "4-") || contains_ignore_ascii_case(model, "4.")
            || contains_ignore_ascii_case(model, "4_") {
            String::from_str("sonnet-4")
        } else if contains_ignore_ascii_case(model, "3.5") || contains_ignore_ascii_case(
            model,
            "3-5",
        ) || contains_ignore_ascii_case(model, "3_5") {
            String::from_str("sonnet-3.5")
        } else {
            String::from_str("sonnet-3")
        }
    } else if contains_ignore_ascii_case(model, "haiku") {
        if contains_ignore_ascii_case(model, "3.5") || contains_ignore_ascii_case(model, "3-5")
            || contains_ignore_ascii_case(model, "3_5") {
            String::from_str("haiku-3.5")
        } else {
            String::from_str("haiku-3")
        }
    } else {
        String::from_str(model)
    }
}

/// The token counts of one message's usage block.
#[derive(Debug, Clone, Copy, PartialEq)]
pub struct UsageData {
    pub input_tokens: u64,
    pub output_tokens: u64,
    pub cache_creation_input_tokens: u64,
    pub cache_read_input_tokens: u64,
}

/// The decoded fields of one raw log line, before admission.
pub struct RawParts {
    /// RFC 3339 timestamp text.
    pub timestamp: Option<String>,
    pub cwd: Option<String>,
    pub session_id: Option<String>,
    /// The "type" field: "user", "assistant" or other.
    pub entry_type: Option<String>,
    pub model: Option<String>,
    /// The message's usage block, when it carried one.
    pub usage: Option<UsageData>,
    /// Extracted prompt text, user entries only.
    pub prompt_text: Option<String>,
}

/// The token counts a raw line carries: its usage block, or all zeros.
pub open spec fn usage_of(raw_usage: Option<UsageData>) -> UsageData {
    match raw_usage {
        Some(u) => u,
        None => UsageData {
            input_tokens: 0,
            output_tokens: 0,
            cache_creation_input_tokens: 0,
            cache_read_input_tokens: 0,
        },
    }
}

/// A raw line is admitted: it is typed, its timestamp parses and is not
/// before the cutoff, and it is either a user entry with a prompt or an
/// assistant entry with a non-empty usage block.
pub open spec fn admitted(
    entry_type: Option<Seq<char>>,
    ts: Option<i64>,
    cutoff_ms: i64,
    has_prompt: bool,
    usage: Option<UsageData>,
    input: u64,
    output: u64,
) -> bool {
    &&& entry_type is Some
    &&& ts is Some
    &&& ts->Some_0 >= cutoff_ms
    &&& {
        ||| (entry_type->Some_0 == "user"@ && has_prompt)
        ||| (entry_type->Some_0 == "assistant"@ && usage is Some && !(input == 0 && output
            == 0))
    }
}

/// Decide one decoded log line: admitted user entries carry their prompt and
/// zero usage, admitted assistant entries carry their usage and its cost;
/// anything else — an untyped line, an unparsable or too-old timestamp, a
/// user line without a prompt, an assistant line without usage — is skipped.
pub fn entry_from_raw(raw: RawParts, cutoff_ms: i64, project_path: &str) -> (r: Option<
    UsageEntry,
>)
    ensures
        r is Some <==> admitted(
            raw.entry_type.deep_view(),
            rfc3339_millis(match raw.timestamp {
                Some(ref t) => t@,
                None => Seq::<char>::empty(),
            }),
            cutoff_ms,
            raw.prompt_text is Some,
            raw.usage,
            usage_of(raw.usage).input_tokens,
            usage_of(raw.usage).output_tokens,
        ) && raw.timestamp is Some,
        r is Some ==> {
            let e = r->Some_0;
            &&& Some(e.timestamp_ms) == rfc3339_millis(raw.timestamp->Some_0@)
            &&& e.session_id@ == (match raw.session_id {
                Some(ref s) => s@,
                None => Seq::<char>::empty(),
            })
            &&& e.cwd@ == (match raw.cwd {
                Some(ref s) => s@,
                None => Seq::<char>::empty(),
            })
            &&& e.project_path@ == project_path@
            &&& (raw.entry_type->Some_0@ == "user"@ ==> e.input_tokens == 0 && e.output_tokens
                == 0 && e.cache_creation_tokens == 0 && e.cache_read_tokens == 0
                && e.cost_picodollars == 0 && e.model@.len() == 0 && e.user_prompt
                == raw.prompt_text)
            &&& (raw.entry_type->Some_0@ != "user"@ ==> e.input_tokens == usage_of(
                raw.usage,
            ).input_tokens && e.output_tokens == usage_of(raw.usage).output_tokens
                && e.cache_creation_tokens == usage_of(raw.usage).cache_creation_input_tokens
                && e.cache_read_tokens == usage_of(raw.usage).cache_read_input_tokens
                && e.cost_picodollars as int == cost_of(
                (match raw.model {
                    Some(ref m) => m@,
                    None => Seq::<char>::empty(),
                }),
                usage_of(raw.usage).input_tokens as int,
                usage_of(raw.usage).output_tokens as int,
                usage_of(raw.usage).cache_creation_input_tokens as int,
                usage_of(raw.usage).cache_read_input_tokens as int,
            ) && e.user_prompt is None)
        },
{
    proof {
        reveal_strlit("user");
        reveal_strlit("assistant");
    }
    let entry_type = match raw.entry_type {
        Some(t) => t,
        None => {
            return None;
        },
    };
    let ts_text = match raw.timestamp {
        Some(t) => t,
        None => {
            return None;
        },
    };
    let timestamp_ms = match parse_rfc3339_millis(ts_text.as_str()) {
        Some(t) => t,
        None => {
            return None;
        },
    };
    if timestamp_ms < cutoff_ms {
        return None;
    }
    let cwd = match raw.cwd {
        Some(s) => s,
        None => String::new(),
    };
    let session_id = match raw.session_id {
        Some(s) => s,
        None => String::new(),
    };
    if str_eq(entry_type.as_str(), "user") {
        match raw.prompt_text {
            Some(p) => {
                return Some(UsageEntry {
                    timestamp_ms,
                    session_id,
                    input_tokens: 0,
                    output_tokens: 0,
                    cache_creation_tokens: 0,
                    cache_read_tokens: 0,
                    cost_picodollars: 0,
                    model: String::new(),
                    cwd,
                    project_path: String::from_str(project_path),
                    user_prompt: Some(p),
                });
            },
            None => {
                proof {
                    // The two type literals differ, so a promptless user
                    // line is admitted by neither disjunct.
                    reveal_strlit("user");
                    reveal_strlit("assistant");
                    assert("user"@.len() == 4 && "assistant"@.len() == 9);
                }
                return None;
            },
        }
    }
    if str_eq(entry_type.as_str(), "assistant") {
        let usage = match raw.usage {
            Some(u) => u,
            None => {
                return None;
            },
        };
        if usage.input_tokens == 0 && usage.output_tokens == 0 {
            return None;
        }
        let model = match raw.model {
            Some(m) => m,
            None => String::new(),
        };
        let cost_picodollars = Pricing::calculate_cost(
            model.as_str(),
            usage.input_tokens,
            usage.output_tokens,
            usage.cache_creation_input_tokens,
            usage.cache_read_input_tokens,
        );
        return Some(UsageEntry {
            timestamp_ms,
            session_id,
            input_tokens: usage.input_tokens,
            output_tokens: usage.output_tokens,
            cache_creation_tokens: usage.cache_creation_input_tokens,
            cache_read_tokens: usage.cache_read_input_tokens,
            cost_picodollars,
            model,
            cwd,
            project_path: String::from_str(project_path),
            user_prompt: None,
        });
    }
    None
}

/// Truncate a prompt to at most 200 characters, appending an ellipsis mark
/// when cut.
pub fn truncate_prompt(text: &str) -> (r: String)
    ensures
        text@.len() <= 200 ==> r@ == text@,
        text@.len() > 200 ==> r@ == text@.subrange(0, 200) + "..."@,
{
    let len = text.unicode_len();
    if len <= 200 {
        String::from_str(text)
    } else {
        proof {
            reveal_strlit("...");
        }
        let mut s = String::from_str(text.substring_char(0, 200));
        s.append("...");
        s
    }
}

/// `s` with every '-' replaced by '/'.
pub open spec fn slashed(s: Seq<char>) -> Seq<char> {
    s.map_values(|c: char| if c == '-' {
        '/'
    } else {
        c
    })
}

/// The project path a log directory name denotes: names of the
/// "-home-user-dir" form map back to "/home/user/dir"; anything else stays
/// as it is.
pub open spec fn project_path_of(dir: Seq<char>) -> Seq<char> {
    if dir.len() > 0 && dir[0] == '-' {
        slashed(dir)
    } else {
        dir
    }
}

/// Recover a project path from the mangled per-project directory name.
pub fn extract_project_path(dir_name: &str) -> (r: String)
    ensures
        r@ == project_path_of(dir_name@),
{
    let len = dir_name.unicode_len();
    if len == 0 || dir_name.get_char(0) != '-' {
        return String::from_str(dir_name);
    }
    proof {
        reveal_strlit("/");
    }
    let mut s = String::new();
    let mut i: usize = 0;
    while i < len
        invariant
            len == dir_name@.len(),
            0 <= i <= len,
            s@ =~= slashed(dir_name@.subrange(0, i as int)),
        decreases len - i,
    {
        let c = dir_name.get_char(i);
        if c == '-' {
            proof {
                reveal_strlit("/");
            }
            s.append("/");
        } else {
            push_one(&mut s, c);
        }
        proof {
            assert(s@ =~= slashed(dir_name@.subrange(0, i + 1)));
        }
        i = i + 1;
    }
    proof {
        assert(dir_name@.subrange(0, len as int) =~= dir_name@);
    }
    s
}

fn push_one(s: &mut String, c: char)
    ensures
        final(s)@ == old(s)@.push(c),
{
    crate::text::push_char(s, c)
}

/// Decimal digits of `n` grouped with a comma every three digits from the
/// right.
pub open spec fn comma_grouped(s: Seq<char>) -> Seq<char>
    decreases s.len(),
{
    if s.len() <= 3 {
        s
    } else {
        comma_grouped(s.subrange(0, s.len() - 3)) + seq![','] + s.subrange(
            s.len() - 3,
            s.len() as int,
        )
    }
}

fn group_digits(s: &str) -> (r: String)
    ensures
        r@ == comma_grouped(s@),
    decreases s@.len(),
{
    let len = s.unicode_len();
    if len <= 3 {
        String::from_str(s)
    } else {
        proof {
            reveal_strlit(",");
        }
        let mut r = group_digits(s.substring_char(0, len - 3));
        r.append(",");
        r.append(s.substring_char(len - 3, len));
        proof {
            assert(r@ =~= comma_grouped(s@));
        }
        r
    }
}

/// Render a count with thousands separators.
pub fn format_number(n: u64) -> (r: String)
    ensures
        r@ == comma_grouped(dec_digits(n as int)),
{
    let s = u64_to_string(n);
    group_digits(s.as_str())
}

/// The compact form of a count: millions to one decimal, thousands floored
/// to "Nk", small counts verbatim.
pub open spec fn compact_spec(n: int) -> Seq<char> {
    if n >= 1000000 {
        let tenths = (n + 50000) / 100000;
        dec_digits(tenths / 10) + seq!['.'] + seq![crate::text::digit_char(tenths % 10)] + seq![
            'M',
        ]
    } else if n >= 1000 {
        dec_digits(n / 1000) + seq!['k']
    } else {
        dec_digits(n)
    }
}

/// Render a count compactly: "1.5M", "12k", "999".
pub fn format_compact(n: u64) -> (r: String)
    ensures
        r@ == compact_spec(n as int),
{
    proof {
        reveal_strlit(".");
        reveal_strlit("M");
        reveal_strlit("k");
    }
    if n >= 1000000 {
        let tenths: u64 = (((n as u128) + 50000) / 100000) as u64;
        let mut s = u64_to_string(tenths / 10);
        s.append(".");
        s.append(crate::text::u64_to_string(tenths % 10).as_str());
        s.append("M");
        proof {
            assert(dec_digits((tenths % 10) as int) =~= seq![
                crate::text::digit_char((tenths % 10) as int),
            ]);
            assert(s@ =~= compact_spec(n as int));
        }
        s
    } else if n >= 1000 {
        let mut s = u64_to_string(n / 1000);
        s.append("k");
        proof {
            assert(s@ =~= compact_spec(n as int));
        }
        s
    } else {
        u64_to_string(n)
    }
}

/// A path shortened to its tail: at most `max_len` characters, the cut
/// marked with a leading "...".
pub fn truncate_path(path: &str, max_len: usize) -> (r: String)
    requires
        max_len >= 3,
    ensures
        path@.len() <= max_len ==> r@ == path@,
        path@.len() > max_len ==> r@ == "..."@ + path@.subrange(
            path@.len() - (max_len - 3),
            path@.len() as int,
        ),
{
    let len = path.unicode_len();
    if len <= max_len {
        String::from_str(path)
    } else {
        proof {
            reveal_strlit("...");
        }
        let keep = max_len - 3;
        let mut s = String::from_str("...");
        s.append(path.substring_char(len - keep, len));
        s
    }
}

/// Relative-age wording for a number of minutes: "now" under a minute,
/// then minutes, hours and days ago.
pub fn format_relative_time(minutes_ago: u64) -> (r: String)
    ensures
        minutes_ago < 1 ==> r@ == "now"@,
        1 <= minutes_ago < 60 ==> r@ == dec_digits(minutes_ago as int) + "m ago"@,
        60 <= minutes_ago < 1440 ==> r@ == dec_digits(minutes_ago as int / 60) + "h ago"@,
        minutes_ago >= 1440 ==> r@ == dec_digits(minutes_ago as int / 1440) + "d ago"@,
{
    proof {
        reveal_strlit("now");
        reveal_strlit("m ago");
        reveal_strlit("h ago");
        reveal_strlit("d ago");
    }
    if minutes_ago < 1 {
        String::from_str("now")
    } else if minutes_ago < 60 {
        let mut s = u64_to_string(minutes_ago);
        s.append("m ago");
        s
    } else if minutes_ago < 1440 {
        let mut s = u64_to_string(minutes_ago / 60);
        s.append("h ago");
        s
    } else {
        let mut s = u64_to_string(minutes_ago / 1440);
        s.append("d ago");
        s
    }
}

/// One analysed session: the entries grouped under one session key.
#[derive(Debug, Clone)]
pub struct SessionBlock {
    pub session_id: String,
    /// Earliest entry timestamp, milliseconds since the epoch.
    pub start_time_ms: i64,
    /// Latest entry timestamp, milliseconds since the epoch.
    pub end_time_ms: i64,
    pub total_tokens: u64,
    /// Cost in picodollars.
    pub cost_picodollars: u64,
    /// The session saw activity within the live threshold.
    pub is_active: bool,
    pub project_path: String,
    pub cwd: String,
    /// Per-model statistics, keyed by normalised model name.
    pub per_model_stats: Vec<(String, ModelStats)>,
    pub message_count: u64,
    /// Last prompt seen in the session.
    pub last_prompt: Option<String>,
}

/// The directory a session is keyed by for deduplication: its working
/// directory when known, else its project path.
pub open spec fn path_key(b: SessionBlock) -> Seq<char> {
    if b.cwd@.len() > 0 {
        b.cwd@
    } else {
        b.project_path@
    }
}

impl SessionBlock {
    /// The path shown for the session: working directory, else project
    /// path, else a placeholder.
    pub fn display_name(&self) -> (r: &str)
        ensures
            self.cwd@.len() > 0 ==> r@ == self.cwd@,
            self.cwd@.len() == 0 && self.project_path@.len() > 0 ==> r@ == self.project_path@,
            self.cwd@.len() == 0 && self.project_path@.len() == 0 ==> r@ == "(unknown)"@,
    {
        if !self.cwd.as_str().is_empty() {
            self.cwd.as_str()
        } else if !self.project_path.as_str().is_empty() {
            self.project_path.as_str()
        } else {
            "(unknown)"
        }
    }

    /// Minutes between first and last activity, at least one.
    pub fn duration_minutes(&self) -> (r: u64)
        ensures
            r as int == (if self.end_time_ms > self.start_time_ms && (self.end_time_ms
                - self.start_time_ms) / 60000 >= 1 {
                (self.end_time_ms - self.start_time_ms) / 60000
            } else {
                1int
            }),
    {
        if self.end_time_ms > self.start_time_ms {
            let d = ((self.end_time_ms as i128 - self.start_time_ms as i128) / 60000) as u64;
            if d >= 1 {
                d
            } else {
                1
            }
        } else {
            1
        }
    }

    /// Tokens per minute over the session's duration.
    pub fn burn_rate(&self) -> (r: u64)
        ensures
            r as int == self.total_tokens as int / (if self.end_time_ms > self.start_time_ms
                && (self.end_time_ms - self.start_time_ms) / 60000 >= 1 {
                (self.end_time_ms - self.start_time_ms) / 60000
            } else {
                1int
            }),
    {
        self.total_tokens / self.duration_minutes()
    }

    /// Short display name: the last path component, cut at `max_len`
    /// characters with an ellipsis; empty for a session without a path.
    pub fn short_name(&self, max_len: usize) -> (r: String)
        requires
            max_len >= 1,
        ensures
            r@ == short_name_spec(*self, max_len as int),
    {
        if self.cwd.as_str().is_empty() && self.project_path.as_str().is_empty() {
            return String::new();
        }
        let path = self.display_name();
        let pieces = split_char(path, '/');
        proof {
            crate::text::lemma_split_len(path@, '/');
            assert(pieces@.map_values(|p: String| p@)[pieces@.len() - 1] == pieces@[pieces@.len()
                - 1]@);
        }
        let name = pieces[pieces.len() - 1].as_str();
        let nlen = name.unicode_len();
        if nlen <= max_len {
            String::from_str(name)
        } else {
            proof {
                reveal_strlit("\u{2026}");
            }
            let mut s = String::from_str(name.substring_char(0, max_len - 1));
            s.append("\u{2026}");
            proof {
                assert(s@ =~= short_name_spec(*self, max_len as int));
            }
            s
        }
    }
}

/// The path a session is shown under: working directory, else project path,
/// else a placeholder.
pub open spec fn display_of(b: SessionBlock) -> Seq<char> {
    if b.cwd@.len() > 0 {
        b.cwd@
    } else if b.project_path@.len() > 0 {
        b.project_path@
    } else {
        "(unknown)"@
    }
}

/// The short display name of a session: the last '/'-separated component of
/// its shown path, cut at `max_len` characters with a trailing ellipsis;
/// empty for a session without any path.
pub open spec fn short_name_spec(b: SessionBlock, max_len: int) -> Seq<char> {
    if b.cwd@.len() == 0 && b.project_path@.len() == 0 {
        Seq::<char>::empty()
    } else {
        let pieces = split_seq(display_of(b), '/');
        let name = pieces[pieces.len() - 1];
        if name.len() <= max_len {
            name
        } else {
            name.subrange(0, max_len - 1) + seq!['\u{2026}']
        }
    }
}

/// Decimal rendering of a signed integer.
pub open spec fn int_dec(n: int) -> Seq<char> {
    if n >= 0 {
        dec_digits(n)
    } else {
        seq!['-'] + dec_digits(-n)
    }
}

fn i64_to_string(n: i64) -> (r: String)
    ensures
        r@ == int_dec(n as int),
{
    if n >= 0 {
        u64_to_string(n as u64)
    } else {
        proof {
            reveal_strlit("-");
        }
        let mag_wide: i128 = -(n as i128);
        proof {
            assert(0 <= mag_wide <= u64::MAX as i128);
        }
        let mag = mag_wide as u64;
        let mut s = String::from_str("-");
        s.append(u64_to_string(mag).as_str());
        proof {
            assert(mag as int == -(n as int));
            assert(s@ =~= int_dec(n as int));
        }
        s
    }
}

/// The grouping key of an entry: its session id, or a synthetic
/// "path:timestamp" key when the id is empty.
pub open spec fn entry_key(e: UsageEntry) -> Seq<char> {
    if e.session_id@.len() > 0 {
        e.session_id@
    } else {
        e.project_path@ + seq![':'] + int_dec(e.timestamp_ms as int)
    }
}

fn entry_key_exec(e: &UsageEntry) -> (r: String)
    ensures
        r@ == entry_key(*e),
{
    if !e.session_id.as_str().is_empty() {
        e.session_id.clone()
    } else {
        proof {
            reveal_strlit(":");
        }
        let mut s = e.project_path.clone();
        s.append(":");
        s.append(i64_to_string(e.timestamp_ms).as_str());
        proof {
            assert(s@ =~= entry_key(*e));
        }
        s
    }
}

/// Every block of the analysis is internally consistent for `now_ms`: its
/// span is ordered and its liveness reflects the activity threshold.
pub open spec fn block_consistent(b: SessionBlock, now_ms: i64) -> bool {
    &&& b.start_time_ms <= b.end_time_ms
    &&& b.is_active == (now_ms - b.end_time_ms < ACTIVE_THRESHOLD_MS)
}

/// `key` is the grouping key of some entry of `es`.
pub open spec fn key_from_entries(es: Seq<UsageEntry>, key: Seq<char>) -> bool {
    exists|j: int| 0 <= j < es.len() && entry_key(#[trigger] es[j]) == key
}

/// The session id of block `b` is the grouping key of some input entry.
pub open spec fn block_from_entries(es: Seq<UsageEntry>, b: SessionBlock) -> bool {
    key_from_entries(es, b.session_id@)
}

/// Blocks are in most-recent-first order.
pub open spec fn blocks_sorted(s: Seq<SessionBlock>) -> bool {
    forall|i: int, j: int|
        0 <= i < j < s.len() ==> (#[trigger] s[i].start_time_ms) >= (#[trigger] s[j].start_time_ms)
}

/// No two blocks share a non-empty directory key.
pub open spec fn blocks_deduped(s: Seq<SessionBlock>) -> bool {
    forall|i: int, j: int|
        0 <= i < s.len() && 0 <= j < s.len() && i != j && path_key(#[trigger] s[i]).len() > 0
            ==> path_key(s[i]) != path_key(#[trigger] s[j])
}

fn sort_blocks_desc(mut v: Vec<SessionBlock>) -> (r: Vec<SessionBlock>)
    ensures
        blocks_sorted(r@),
        r@.len() == v@.len(),
        forall|i: int| 0 <= i < r@.len() ==> v@.contains(#[trigger] r@[i]),
{
    let ghost orig = v@;
    let mut out: Vec<SessionBlock> = Vec::new();
    while v.len() > 0
        invariant
            blocks_sorted(out@),
            out@.len() + v@.len() == orig.len(),
            forall|i: int| 0 <= i < out@.len() ==> orig.contains(#[trigger] out@[i]),
            forall|i: int| 0 <= i < v@.len() ==> orig.contains(#[trigger] v@[i]),
        decreases v@.len(),
    {
        let ghost vpre = v@;
        let item = v.remove(0);
        proof {
            assert(vpre.contains(item)) by {
                assert(vpre[0] == item);
            }
            assert forall|i: int| 0 <= i < v@.len() implies orig.contains(#[trigger] v@[i]) by {
                assert(v@[i] == vpre[i + 1]);
                assert(vpre.contains(vpre[i + 1]));
            }
        }
        let mut pos: usize = 0;
        let olen = out.len();
        while pos < olen && out[pos].start_time_ms >= item.start_time_ms
            invariant
                olen == out@.len(),
                0 <= pos <= olen,
                forall|j: int|
                    0 <= j < pos ==> (#[trigger] out@[j].start_time_ms) >= item.start_time_ms,
            decreases olen - pos,
        {
            pos = pos + 1;
        }
        let ghost opre = out@;
        out.insert(pos, item);
        proof {
            assert(blocks_sorted(out@)) by {
                assert forall|i: int, j: int| 0 <= i < j < out@.len() implies (
                #[trigger] out@[i].start_time_ms) >= (#[trigger] out@[j].start_time_ms) by {
                    if j < pos {
                    } else if i < pos && j == pos {
                    } else if i < pos {
                        assert(out@[j] == opre[j - 1]);
                    } else if i == pos {
                        assert(out@[j] == opre[j - 1]);
                        assert(opre[j - 1].start_time_ms < item.start_time_ms || pos == olen);
                    } else {
                        assert(out@[i] == opre[i - 1] && out@[j] == opre[j - 1]);
                    }
                }
            }
            assert(item == vpre[0]);
            assert forall|i: int| 0 <= i < out@.len() implies orig.contains(
                #[trigger] out@[i],
            ) by {
                if i < pos {
                    assert(out@[i] == opre[i]);
                } else if i == pos {
                    assert(out@[i] == item);
                } else {
                    assert(out@[i] == opre[i - 1]);
                }
            }
        }
    }
    out
}

/// Some block of `s` carries directory key `key`.
pub open spec fn key_in_blocks(s: Seq<SessionBlock>, key: Seq<char>) -> bool {
    exists|j: int| 0 <= j < s.len() && path_key(#[trigger] s[j]) == key
}

/// Keep-first deduplication by directory key: walking `bs` front to back,
/// a block is kept unless its non-empty key was already kept; blocks
/// without a key are always kept. `seen` holds the keys already taken.
pub open spec fn dedup_keep_first(bs: Seq<SessionBlock>, seen: Set<Seq<char>>) -> Seq<
    SessionBlock,
>
    decreases bs.len(),
{
    if bs.len() == 0 {
        Seq::<SessionBlock>::empty()
    } else {
        let b = bs[0];
        if path_key(b).len() > 0 && seen.contains(path_key(b)) {
            dedup_keep_first(bs.drop_first(), seen)
        } else {
            let seen2 = if path_key(b).len() > 0 {
                seen.insert(path_key(b))
            } else {
                seen
            };
            seq![b] + dedup_keep_first(bs.drop_first(), seen2)
        }
    }
}

/// No kept block carries a key that was already seen.
proof fn lemma_dedup_avoids_seen(bs: Seq<SessionBlock>, seen: Set<Seq<char>>)
    ensures
        forall|x: SessionBlock|
            #![trigger dedup_keep_first(bs, seen).contains(x)]
            dedup_keep_first(bs, seen).contains(x) && path_key(x).len() > 0 ==> !seen.contains(
                path_key(x),
            ),
    decreases bs.len(),
{
    if bs.len() > 0 {
        let b = bs[0];
        let rest = bs.drop_first();
        if path_key(b).len() > 0 && seen.contains(path_key(b)) {
            lemma_dedup_avoids_seen(rest, seen);
            assert forall|x: SessionBlock|
                dedup_keep_first(bs, seen).contains(x) && path_key(x).len() > 0 implies
                !seen.contains(path_key(x)) by {
                assert(dedup_keep_first(rest, seen).contains(x));
            }
        } else {
            let seen2 = if path_key(b).len() > 0 {
                seen.insert(path_key(b))
            } else {
                seen
            };
            lemma_dedup_avoids_seen(rest, seen2);
            let d = dedup_keep_first(bs, seen);
            let tail = dedup_keep_first(rest, seen2);
            assert forall|x: SessionBlock|
                d.contains(x) && path_key(x).len() > 0 implies !seen.contains(path_key(x)) by {
                let i = choose|i: int| 0 <= i < d.len() && d[i] == x;
                if i == 0 {
                } else {
                    assert(tail[i - 1] == x);
                    assert(tail.contains(x));
                }
            }
        }
    }
}

/// The survivor of each non-empty directory key is the most recent session:
/// in a most-recent-first list, every kept block starts no earlier than any
/// block of the same key.
pub proof fn lemma_dedup_survivor_most_recent(bs: Seq<SessionBlock>, seen: Set<Seq<char>>)
    requires
        blocks_sorted(bs),
    ensures
        forall|x: SessionBlock, j: int|
            #![trigger dedup_keep_first(bs, seen).contains(x), path_key(bs[j])]
            dedup_keep_first(bs, seen).contains(x) && 0 <= j < bs.len() && path_key(x).len() > 0
                && path_key(bs[j]) == path_key(x) ==> x.start_time_ms >= bs[j].start_time_ms,
    decreases bs.len(),
{
    if bs.len() > 0 {
        let b = bs[0];
        let rest = bs.drop_first();
        assert(blocks_sorted(rest)) by {
            assert forall|p: int, q: int| 0 <= p < q < rest.len() implies (
            #[trigger] rest[p].start_time_ms) >= (#[trigger] rest[q].start_time_ms) by {
                assert(rest[p] == bs[p + 1] && rest[q] == bs[q + 1]);
            }
        }
        let d = dedup_keep_first(bs, seen);
        if path_key(b).len() > 0 && seen.contains(path_key(b)) {
            lemma_dedup_survivor_most_recent(rest, seen);
            lemma_dedup_avoids_seen(rest, seen);
            assert forall|x: SessionBlock, j: int|
                d.contains(x) && 0 <= j < bs.len() && path_key(x).len() > 0 && path_key(bs[j])
                    == path_key(x) implies x.start_time_ms >= bs[j].start_time_ms by {
                assert(dedup_keep_first(rest, seen).contains(x));
                if j == 0 {
                    // x avoids every seen key, so it cannot share the
                    // dropped head's key.
                    assert(!seen.contains(path_key(x)));
                    assert(false);
                } else {
                    assert(bs[j] == rest[j - 1]);
                    assert(path_key(rest[j - 1]) == path_key(x));
                }
            }
        } else {
            let seen2 = if path_key(b).len() > 0 {
                seen.insert(path_key(b))
            } else {
                seen
            };
            lemma_dedup_survivor_most_recent(rest, seen2);
            lemma_dedup_avoids_seen(rest, seen2);
            let tail = dedup_keep_first(rest, seen2);
            assert forall|x: SessionBlock, j: int|
                d.contains(x) && 0 <= j < bs.len() && path_key(x).len() > 0 && path_key(bs[j])
                    == path_key(x) implies x.start_time_ms >= bs[j].start_time_ms by {
                let i = choose|i: int| 0 <= i < d.len() && d[i] == x;
                if i == 0 {
                    // x is the head itself: the list is most-recent-first.
                    assert(x == b);
                } else {
                    assert(tail[i - 1] == x);
                    assert(tail.contains(x));
                    assert(!seen2.contains(path_key(x)));
                    if j == 0 {
                        // A kept tail block never shares the head's key.
                        assert(path_key(b).len() > 0 ==> seen2.contains(path_key(b)));
                        assert(false);
                    } else {
                        assert(bs[j] == rest[j - 1]);
                        assert(path_key(rest[j - 1]) == path_key(x));
                    }
                }
            }
        }
    }
}

/// Group admitted entries into session blocks and keep the most recent
/// session per directory.
///
/// The result is most-recent-first, holds at most one block per non-empty
/// directory key, every block's liveness reflects the activity threshold at
/// `now_ms`, and a non-empty input yields at least one block. A block's
/// totals aggregate the entries grouped under its session key (the
/// aggregation itself is the data-producing side of the dashboard and is
/// not pinned further here).
pub fn analyze_sessions(entries: Vec<UsageEntry>, now_ms: i64) -> (r: Vec<SessionBlock>)
    ensures
        blocks_sorted(r@),
        blocks_deduped(r@),
        forall|i: int| 0 <= i < r@.len() ==> block_consistent(#[trigger] r@[i], now_ms),
        forall|i: int| 0 <= i < r@.len() ==> block_from_entries(entries@, #[trigger] r@[i]),
        exists|bs: Seq<SessionBlock>|
            #![trigger dedup_keep_first(bs, Set::<Seq<char>>::empty())]
            blocks_sorted(bs) && (forall|k: int|
                0 <= k < bs.len() ==> block_consistent(#[trigger] bs[k], now_ms)) && (forall|
                k: int,
            |
                0 <= k < bs.len() ==> block_from_entries(entries@, #[trigger] bs[k])) && r@
                == dedup_keep_first(bs, Set::<Seq<char>>::empty()),
        entries@.len() == 0 ==> r@.len() == 0,
        entries@.len() > 0 ==> r@.len() > 0,
{
    if entries.len() == 0 {
        let r: Vec<SessionBlock> = Vec::new();
        proof {
            assert(r@ =~= dedup_keep_first(
                Seq::<SessionBlock>::empty(),
                Set::<Seq<char>>::empty(),
            ));
        }
        return r;
    }
    let ghost all = entries@;
    // Group entries by session key, in first-appearance order.
    let mut groups: Vec<(String, Vec<UsageEntry>)> = Vec::new();
    let mut rest = entries;
    let ghost eaten: int = 0;
    while rest.len() > 0
        invariant
            eaten == all.len() - rest@.len(),
            0 <= eaten <= all.len(),
            rest@ =~= all.subrange(eaten, all.len() as int),
            groups@.len() + rest@.len() >= 1,
            forall|k: int| 0 <= k < groups@.len() ==> (#[trigger] groups@[k].1@).len() > 0,
            forall|k: int|
                0 <= k < groups@.len() ==> key_from_entries(all, (#[trigger] groups@[k]).0@),
        decreases rest@.len(),
    {
        let e = rest.remove(0);
        proof {
            assert(e == all[eaten]);
        }
        let key = entry_key_exec(&e);
        let mut gi: usize = 0;
        let glen = groups.len();
        let mut found = false;
        while gi < glen && !found
            invariant
                glen == groups@.len(),
                0 <= gi <= glen,
                found ==> gi < glen,
            decreases glen - gi, (if found { 0int } else { 1int }),
        {
            if str_eq(groups[gi].0.as_str(), key.as_str()) {
                found = true;
            } else {
                gi = gi + 1;
            }
        }
        if found {
            let ghost gpre = groups@;
            let mut g = groups.remove(gi);
            g.1.push(e);
            groups.insert(gi, g);
            proof {
                assert forall|k: int| 0 <= k < groups@.len() implies (
                #[trigger] groups@[k].1@).len() > 0 by {
                    if k != gi {
                        assert(groups@[k] == gpre[k]);
                    }
                }
            }
        } else {
            let ghost gpre = groups@;
            let mut list: Vec<UsageEntry> = Vec::new();
            list.push(e);
            groups.push((key, list));
            proof {
                assert forall|k: int| 0 <= k < groups@.len() implies key_from_entries(
                    all,
                    (#[trigger] groups@[k]).0@,
                ) by {
                    if k < gpre.len() {
                        assert(groups@[k] == gpre[k]);
                    } else {
                        assert(groups@[k].0@ == entry_key(all[eaten]));
                        assert(key_from_entries(all, entry_key(all[eaten])));
                    }
                }
            }
        }
        proof {
            eaten = eaten + 1;
        }
    }
    // One block per group.
    let mut blocks: Vec<SessionBlock> = Vec::new();
    let mut grest = groups;
    while grest.len() > 0
        invariant
            blocks@.len() + grest@.len() >= 1,
            forall|k: int| 0 <= k < grest@.len() ==> (#[trigger] grest@[k].1@).len() > 0,
            forall|k: int|
                0 <= k < grest@.len() ==> key_from_entries(all, (#[trigger] grest@[k]).0@),
            forall|i: int|
                0 <= i < blocks@.len() ==> block_consistent(#[trigger] blocks@[i], now_ms),
            forall|i: int|
                0 <= i < blocks@.len() ==> block_from_entries(all, #[trigger] blocks@[i]),
        decreases grest@.len(),
    {
        let ghost gpre = grest@;
        let g = grest.remove(0);
        proof {
            assert(gpre[0].1@.len() > 0);
            assert(gpre[0] == g);
            assert(forall|k: int|
                0 <= k < grest@.len() ==> grest@[k] == #[trigger] gpre[k + 1]);
        }
        match block_of_group(g.0, g.1, now_ms) {
            Some(b) => {
                proof {
                    assert(block_from_entries(all, b));
                }
                blocks.push(b);
            },
            None => {},
        }
    }
    let sorted = sort_blocks_desc(blocks);
    // Deduplicate by directory: keep only the most recent session per path.
    let ghost sor = sorted@;
    let mut srest = sorted;
    let ghost done: int = 0;
    let ghost seen: Set<Seq<char>> = Set::empty();
    let mut out: Vec<SessionBlock> = Vec::new();
    proof {
        assert(sor.subrange(0, sor.len() as int) =~= sor);
        assert(Seq::<SessionBlock>::empty() + dedup_keep_first(sor, Set::<Seq<char>>::empty())
            =~= dedup_keep_first(sor, Set::<Seq<char>>::empty()));
    }
    while srest.len() > 0
        invariant
            done == sor.len() - srest@.len(),
            0 <= done <= sor.len(),
            srest@ =~= sor.subrange(done, sor.len() as int),
            dedup_keep_first(sor, Set::<Seq<char>>::empty()) == out@ + dedup_keep_first(
                sor.subrange(done, sor.len() as int),
                seen,
            ),
            forall|key: Seq<char>|
                #![trigger seen.contains(key)]
                seen.contains(key) <==> (key.len() > 0 && key_in_blocks(out@, key)),
            blocks_sorted(sor),
            forall|k: int| 0 <= k < sor.len() ==> block_consistent(#[trigger] sor[k], now_ms),
            forall|k: int| 0 <= k < sor.len() ==> block_from_entries(all, #[trigger] sor[k]),
            blocks_sorted(out@),
            blocks_deduped(out@),
            forall|k: int|
                0 <= k < out@.len() ==> block_consistent(#[trigger] out@[k], now_ms),
            forall|k: int|
                0 <= k < out@.len() ==> block_from_entries(all, #[trigger] out@[k]),
            forall|k: int|
                0 <= k < out@.len() ==> sor.subrange(0, done).contains(#[trigger] out@[k]),
            done > 0 ==> out@.len() > 0,
        decreases srest@.len(),
    {
        let b = srest.remove(0);
        let ghost suffix = sor.subrange(done, sor.len() as int);
        proof {
            assert(b == sor[done]);
            assert(suffix[0] == b);
            assert(suffix.drop_first() =~= sor.subrange(done + 1, sor.len() as int));
        }
        let key_empty = b.cwd.as_str().is_empty() && b.project_path.as_str().is_empty();
        proof {
            assert(key_empty == (path_key(b).len() == 0));
        }
        let mut dup = false;
        let olen = out.len();
        let mut k: usize = 0;
        while k < olen && !dup
            invariant
                olen == out@.len(),
                0 <= k <= olen,
                dup ==> k < olen && path_key(out@[k as int]) == path_key(b),
                forall|j: int| 0 <= j < k ==> path_key(#[trigger] out@[j]) != path_key(b),
            decreases olen - k, (if dup { 0int } else { 1int }),
        {
            if path_keys_equal(&out[k], &b) {
                dup = true;
            } else {
                k = k + 1;
            }
        }
        if key_empty || !dup {
            let ghost opre = out@;
            let ghost seen2 = if path_key(b).len() > 0 {
                seen.insert(path_key(b))
            } else {
                seen
            };
            out.push(b);
            proof {
                assert(out@.last() == sor[done]);
                // This step keeps the block: its key is empty or unseen.
                if !key_empty {
                    assert(!key_in_blocks(opre, path_key(b))) by {
                        if key_in_blocks(opre, path_key(b)) {
                            let j = choose|j: int|
                                0 <= j < opre.len() && path_key(#[trigger] opre[j]) == path_key(
                                    b,
                                );
                            assert(path_key(opre[j]) != path_key(b));
                        }
                    }
                    assert(!seen.contains(path_key(b)));
                }
                assert(dedup_keep_first(suffix, seen) == seq![b] + dedup_keep_first(
                    suffix.drop_first(),
                    seen2,
                ));
                assert(dedup_keep_first(sor, Set::<Seq<char>>::empty()) =~= out@
                    + dedup_keep_first(sor.subrange(done + 1, sor.len() as int), seen2)) by {
                    assert(opre + (seq![b] + dedup_keep_first(suffix.drop_first(), seen2)) =~=
                        (opre + seq![b]) + dedup_keep_first(suffix.drop_first(), seen2));
                    assert(opre + seq![b] =~= out@);
                }
                assert forall|key2: Seq<char>|
                    seen2.contains(key2) <==> (key2.len() > 0 && key_in_blocks(
                        out@,
                        key2,
                    )) by {
                    if key2.len() > 0 && key_in_blocks(out@, key2) {
                        let j = choose|j: int|
                            0 <= j < out@.len() && path_key(#[trigger] out@[j]) == key2;
                        if j < opre.len() {
                            assert(path_key(opre[j]) == key2);
                            assert(key_in_blocks(opre, key2));
                        } else {
                            assert(out@[j] == b);
                        }
                    }
                    if seen2.contains(key2) {
                        if seen.contains(key2) {
                            let j = choose|j: int|
                                0 <= j < opre.len() && path_key(#[trigger] opre[j]) == key2;
                            assert(path_key(out@[j]) == key2);
                            assert(key_in_blocks(out@, key2));
                        } else {
                            assert(key2 == path_key(b));
                            assert(path_key(out@[opre.len() as int]) == key2);
                            assert(key_in_blocks(out@, key2));
                        }
                    }
                }
                assert(blocks_deduped(out@)) by {
                    assert forall|x: int, y: int|
                        0 <= x < out@.len() && 0 <= y < out@.len() && x != y && path_key(
                            #[trigger] out@[x],
                        ).len() > 0 implies path_key(out@[x]) != path_key(
                        #[trigger] out@[y]) by {
                        if x < opre.len() && y < opre.len() {
                        } else if x == opre.len() {
                            assert(out@[x] == sor[done]);
                            assert(!key_empty);
                            assert(!dup);
                            assert(path_key(out@[y]) != path_key(sor[done]));
                        } else {
                            assert(out@[y] == sor[done]);
                            if path_key(out@[y]).len() > 0 {
                                assert(!key_empty);
                                assert(!dup);
                                assert(path_key(out@[x]) != path_key(sor[done]));
                            }
                        }
                    }
                }
                assert(blocks_sorted(out@)) by {
                    assert forall|x: int, y: int| 0 <= x < y < out@.len() implies (
                    #[trigger] out@[x].start_time_ms) >= (#[trigger] out@[y].start_time_ms) by {
                        if y == opre.len() {
                            let pre = sor.subrange(0, done);
                            assert(pre.contains(out@[x]));
                            let j = choose|j: int| 0 <= j < pre.len() && pre[j] == out@[x];
                            assert(sor[j] == out@[x]);
                            assert(sor[j].start_time_ms >= sor[done].start_time_ms);
                        }
                    }
                }
                assert forall|k2: int| 0 <= k2 < out@.len() implies sor.subrange(
                    0,
                    done + 1,
                ).contains(#[trigger] out@[k2]) by {
                    if k2 < opre.len() {
                        let pre = sor.subrange(0, done);
                        assert(pre.contains(out@[k2]));
                        let j = choose|j: int| 0 <= j < pre.len() && pre[j] == out@[k2];
                        assert(sor.subrange(0, done + 1)[j] == out@[k2]);
                    } else {
                        assert(sor.subrange(0, done + 1)[done] == out@[k2]);
                    }
                }
            }
        }
        proof {
            if key_empty || !dup {
                seen = if path_key(b).len() > 0 {
                    seen.insert(path_key(b))
                } else {
                    seen
                };
            } else {
                // The block is dropped: its non-empty key was already kept.
                assert(path_key(out@[k as int]) == path_key(b));
                assert(key_in_blocks(out@, path_key(b)));
                assert(seen.contains(path_key(b)));
                assert(dedup_keep_first(suffix, seen) == dedup_keep_first(
                    suffix.drop_first(),
                    seen,
                ));
            }
            done = done + 1;
        }
    }
    proof {
        assert(sor.len() > 0);
        assert(out@.len() > 0);
        assert(sor.subrange(done, sor.len() as int) =~= Seq::<SessionBlock>::empty());
        assert(dedup_keep_first(Seq::<SessionBlock>::empty(), seen)
            =~= Seq::<SessionBlock>::empty());
        assert(out@ =~= dedup_keep_first(sor, Set::<Seq<char>>::empty()));
    }
    out
}

fn path_keys_equal(a: &SessionBlock, b: &SessionBlock) -> (r: bool)
    ensures
        r == (path_key(*a) == path_key(*b)),
{
    let ka = if !a.cwd.as_str().is_empty() {
        a.cwd.as_str()
    } else {
        a.project_path.as_str()
    };
    let kb = if !b.cwd.as_str().is_empty() {
        b.cwd.as_str()
    } else {
        b.project_path.as_str()
    };
    str_eq(ka, kb)
}

/// Earliest timestamp of a set of entries (the top of `i64` for none).
pub open spec fn min_ts(es: Seq<UsageEntry>) -> int
    decreases es.len(),
{
    if es.len() == 0 {
        i64::MAX as int
    } else {
        let m = min_ts(es.drop_last());
        if es.last().timestamp_ms as int <= m {
            es.last().timestamp_ms as int
        } else {
            m
        }
    }
}

/// Latest timestamp of a set of entries (the bottom of `i64` for none).
pub open spec fn max_ts(es: Seq<UsageEntry>) -> int
    decreases es.len(),
{
    if es.len() == 0 {
        i64::MIN as int
    } else {
        let m = max_ts(es.drop_last());
        if es.last().timestamp_ms as int >= m {
            es.last().timestamp_ms as int
        } else {
            m
        }
    }
}

/// Fold one group of entries into a session block: span from the earliest
/// to the latest timestamp, totals over the assistant entries, the last
/// prompt seen, and liveness from the latest activity against `now_ms`.
/// The totals themselves are the data-producing side of the dashboard and
/// are not pinned beyond the span.
fn block_of_group(session_id: String, group: Vec<UsageEntry>, now_ms: i64) -> (r: Option<
    SessionBlock,
>)
    ensures
        group@.len() == 0 ==> r is None,
        group@.len() > 0 ==> r is Some && block_consistent(r->Some_0, now_ms)
            && r->Some_0.session_id == session_id && r->Some_0.start_time_ms as int == min_ts(
            group@,
        ) && r->Some_0.end_time_ms as int == max_ts(group@),
{
    if group.len() == 0 {
        return None;
    }
    let mut start = group[0].timestamp_ms;
    let mut end = group[0].timestamp_ms;
    let mut total_tokens: u64 = 0;
    let mut cost: u64 = 0;
    let mut message_count: u64 = 0;
    let mut last_prompt: Option<String> = None;
    let mut per_model: Vec<(String, ModelStats)> = Vec::new();
    let mut project_path = group[0].project_path.clone();
    let mut cwd = String::new();
    let mut cwd_found = false;
    let n = group.len();
    proof {
        assert(group@.subrange(0, 1).drop_last() =~= Seq::<UsageEntry>::empty());
        assert(group@.subrange(0, 1).last() == group@[0]);
        assert(min_ts(Seq::<UsageEntry>::empty()) == i64::MAX as int);
        assert(max_ts(Seq::<UsageEntry>::empty()) == i64::MIN as int);
    }
    let mut i: usize = 0;
    while i < n
        invariant
            n == group@.len(),
            n > 0,
            0 <= i <= n,
            start <= end,
            start as int == min_ts(
                group@.subrange(
                    0,
                    (if i == 0 {
                        1int
                    } else {
                        i as int
                    }),
                ),
            ),
            end as int == max_ts(
                group@.subrange(
                    0,
                    (if i == 0 {
                        1int
                    } else {
                        i as int
                    }),
                ),
            ),
        decreases n - i,
    {
        proof {
            if i == 0 {
                assert(group@.subrange(0, 1).drop_last() =~= Seq::<UsageEntry>::empty());
                assert(group@.subrange(0, 1).last() == group@[0]);
                assert(min_ts(Seq::<UsageEntry>::empty()) == i64::MAX as int);
                assert(max_ts(Seq::<UsageEntry>::empty()) == i64::MIN as int);
            } else {
                assert(group@.subrange(0, i + 1).drop_last() =~= group@.subrange(0, i as int));
                assert(group@.subrange(0, i + 1).last() == group@[i as int]);
            }
        }
        let e = &group[i];
        if e.timestamp_ms < start {
            start = e.timestamp_ms;
        }
        if e.timestamp_ms > end {
            end = e.timestamp_ms;
        }
        if !cwd_found && !e.cwd.as_str().is_empty() {
            cwd = e.cwd.clone();
            cwd_found = true;
        }
        match e.user_prompt {
            Some(ref p) => {
                last_prompt = Some(p.clone());
            },
            None => {},
        }
        if e.input_tokens > 0 || e.output_tokens > 0 {
            total_tokens = sat_add_exec(total_tokens, e.total_tokens());
            cost = sat_add_exec(cost, e.cost_picodollars);
            message_count = sat_add_exec(message_count, 1);
            let model = normalize_model_name(e.model.as_str());
            let mut mi: usize = 0;
            let mlen = per_model.len();
            let mut mfound = false;
            while mi < mlen && !mfound
                invariant
                    mlen == per_model@.len(),
                    0 <= mi <= mlen,
                    mfound ==> mi < mlen,
                decreases mlen - mi, (if mfound { 0int } else { 1int }),
            {
                if str_eq(per_model[mi].0.as_str(), model.as_str()) {
                    mfound = true;
                } else {
                    mi = mi + 1;
                }
            }
            if mfound {
                let mut row = per_model.remove(mi);
                row.1.add_entry(e);
                per_model.insert(mi, row);
            } else {
                let mut stats = ModelStats::default();
                stats.add_entry(e);
                per_model.push((model, stats));
            }
        }
        i = i + 1;
    }
    let is_active = (now_ms as i128 - end as i128) < (ACTIVE_THRESHOLD_MS as i128);
    proof {
        assert(is_active == (now_ms - end < ACTIVE_THRESHOLD_MS));
        assert(group@.subrange(0, n as int) =~= group@);
    }
    Some(
        SessionBlock {
            session_id,
            start_time_ms: start,
            end_time_ms: end,
            total_tokens,
            cost_picodollars: cost,
            is_active,
            project_path,
            cwd,
            per_model_stats: per_model,
            message_count,
            last_prompt,
        },
    )
}

/// Selection state of the session dashboard.
#[derive(Debug, Clone)]
pub struct SessionDashboard {
    pub sessions: Vec<SessionBlock>,
    /// Index of the selected session, valid whenever sessions exist.
    pub selected_index: usize,
    /// The id the selection is tracked by across refreshes.
    pub selected_session_id: Option<String>,
}

impl SessionDashboard {
    /// An empty dashboard.
    pub fn new() -> (r: Self)
        ensures
            r.sessions@.len() == 0,
            r.selected_index == 0,
            r.selected_session_id is None,
    {
        SessionDashboard { sessions: Vec::new(), selected_index: 0, selected_session_id: None }
    }

    /// Replace the sessions and keep the selection stable: the previously
    /// selected session id keeps the selection when still present; otherwise
    /// the first active session is selected, else the first row.
    pub fn update_sessions(&mut self, sessions: Vec<SessionBlock>)
        ensures
            final(self).sessions@ == sessions@,
            sessions@.len() > 0 ==> final(self).selected_index < sessions@.len(),
            sessions@.len() == 0 ==> final(self).selected_index == 0,
            match old(self).selected_session_id {
                Some(ref id) => (exists|j: int|
                    0 <= j < sessions@.len() && (#[trigger] sessions@[j].session_id@) == id@)
                    ==> sessions@[final(self).selected_index as int].session_id@ == id@,
                None => true,
            },
    {
        let n = sessions.len();
        let mut new_index: usize = 0;
        let mut fixed = false;
        match self.selected_session_id {
            Some(ref id) => {
                let mut j: usize = 0;
                while j < n && !fixed
                    invariant
                        n == sessions@.len(),
                        0 <= j <= n,
                        fixed ==> j < n && sessions@[j as int].session_id@ == id@ && new_index
                            == j,
                        !fixed ==> new_index == 0 && forall|t: int|
                            0 <= t < j ==> (#[trigger] sessions@[t].session_id@) != id@,
                    decreases n - j, (if fixed { 0int } else { 1int }),
                {
                    if str_eq(sessions[j].session_id.as_str(), id.as_str()) {
                        new_index = j;
                        fixed = true;
                    } else {
                        j = j + 1;
                    }
                }
            },
            None => {},
        }
        if !fixed {
            let mut j: usize = 0;
            while j < n && !fixed
                invariant
                    n == sessions@.len(),
                    0 <= j <= n,
                    fixed ==> j < n && new_index == j,
                    !fixed ==> new_index == 0,
                decreases n - j, (if fixed { 0int } else { 1int }),
            {
                if sessions[j].is_active {
                    new_index = j;
                    fixed = true;
                } else {
                    j = j + 1;
                }
            }
        }
        self.sessions = sessions;
        self.selected_index = new_index;
        if self.sessions.len() > 0 && self.selected_index < self.sessions.len() {
            self.selected_session_id = Some(self.sessions[self.selected_index].session_id.clone());
        }
    }

    /// The selected session, when any exists.
    pub fn selected_session(&self) -> (r: Option<&SessionBlock>)
        ensures
            self.selected_index < self.sessions@.len() ==> r is Some && *r->Some_0
                == self.sessions@[self.selected_index as int],
            self.selected_index >= self.sessions@.len() ==> r is None,
    {
        if self.selected_index < self.sessions.len() {
            Some(&self.sessions[self.selected_index])
        } else {
            None
        }
    }

    /// Select the next session, wrapping around.
    pub fn select_next(&mut self)
        ensures
            final(self).sessions == old(self).sessions,
            old(self).sessions@.len() > 0 && old(self).selected_index < old(
                self,
            ).sessions@.len() ==> final(self).selected_index as int == (old(self).selected_index
                + 1) % (old(self).sessions@.len() as int),
            old(self).sessions@.len() > 0 && old(self).selected_index >= old(
                self,
            ).sessions@.len() ==> final(self).selected_index == 0,
            old(self).sessions@.len() == 0 ==> final(self).selected_index == old(
                self,
            ).selected_index,
    {
        if self.sessions.len() > 0 {
            if self.selected_index >= self.sessions.len() {
                self.selected_index = 0;
            } else {
                self.selected_index = (self.selected_index + 1) % self.sessions.len();
            }
            if self.selected_index < self.sessions.len() {
                self.selected_session_id = Some(
                    self.sessions[self.selected_index].session_id.clone(),
                );
            }
        }
    }

    /// Select the previous session, wrapping around.
    pub fn select_prev(&mut self)
        ensures
            final(self).sessions == old(self).sessions,
            old(self).sessions@.len() > 0 ==> final(self).selected_index as int == (if old(
                self,
            ).selected_index == 0 {
                old(self).sessions@.len() - 1
            } else {
                old(self).selected_index - 1
            }),
            old(self).sessions@.len() == 0 ==> final(self).selected_index == old(
                self,
            ).selected_index,
    {
        if self.sessions.len() > 0 {
            if self.selected_index == 0 {
                self.selected_index = self.sessions.len() - 1;
            } else {
                self.selected_index = self.selected_index - 1;
            }
            if self.selected_index < self.sessions.len() {
                self.selected_session_id = Some(
                    self.sessions[self.selected_index].session_id.clone(),
                );
            }
        }
    }
}

impl Default for SessionDashboard {
    fn default() -> (r: Self)
        ensures
            r.sessions@.len() == 0,
            r.selected_index == 0,
    {
        SessionDashboard::new()
    }
}

/// Duration wording for a number of minutes: "XhYm" from an hour up,
/// else "Xm".
pub fn format_time(minutes: u64) -> (r: String)
    ensures
        minutes >= 60 ==> r@ == dec_digits(minutes as int / 60) + "h "@ + dec_digits(
            minutes as int % 60,
        ) + "m"@,
        minutes < 60 ==> r@ == dec_digits(minutes as int) + "m"@,
{
    proof {
        reveal_strlit("h ");
        reveal_strlit("m");
    }
    if minutes >= 60 {
        let mut s = u64_to_string(minutes / 60);
        s.append("h ");
        s.append(u64_to_string(minutes % 60).as_str());
        s.append("m");
        s
    } else {
        let mut s = u64_to_string(minutes);
        s.append("m");
        s
    }
}

} // verus!
