//! When to build a snapshot.

use vstd::prelude::*;
use vstd::slice::slice_subrange;

use crate::error::ConfigError;
use crate::log_id::index_after;
use crate::log_id::next_index;
use crate::log_id::LogId;
use crate::log_id::NodeId;
use crate::text::chars_of;
use crate::text::decimal;
use crate::text::decimal_value;
use crate::text::is_digit;
use crate::text::is_number_text;
use crate::text::lemma_decimal;
use crate::text::lemma_run_length;
use crate::text::lemma_run_length_is;
use crate::text::lemma_unsigned_of;
use crate::text::lemma_unsigned_of_digits;
use crate::text::parse_unsigned;
use crate::text::run_length;
use crate::text::same_chars;
use crate::text::unsigned;

verus! {

/// When a snapshot is built without being asked for.
#[derive(Debug, PartialEq, Eq)]
pub enum SnapshotPolicy {
    /// As soon as the log has grown by this number of logs since the last snapshot.
    LogsSinceLast(u64),
    /// Never: the application triggers every snapshot.
    Never,
}

impl Clone for SnapshotPolicy {
    fn clone(&self) -> (r: Self)
        ensures
            r == *self,
    {
        match self {
            SnapshotPolicy::LogsSinceLast(threshold) => SnapshotPolicy::LogsSinceLast(*threshold),
            SnapshotPolicy::Never => SnapshotPolicy::Never,
        }
    }
}

impl SnapshotPolicy {
    /// Whether a snapshot is due when the logs below the index `committed` are committed and those
    /// below the index `in_snapshot` are in a snapshot.
    pub open spec fn is_due(&self, committed: nat, in_snapshot: nat) -> bool {
        match *self {
            SnapshotPolicy::LogsSinceLast(threshold) => committed >= in_snapshot + threshold,
            SnapshotPolicy::Never => false,
        }
    }

    /// Whether a snapshot is due, given the last committed log and the last log in a snapshot.
    pub fn should_snapshot<NID: NodeId>(
        &self,
        committed: Option<&LogId<NID>>,
        snapshot_last_log_id: Option<&LogId<NID>>,
    ) -> (r: bool)
        requires
            *self matches SnapshotPolicy::LogsSinceLast(threshold) ==> {
                &&& index_after(committed) <= u64::MAX
                &&& index_after(snapshot_last_log_id) + threshold <= u64::MAX
            },
        ensures
            r == self.is_due(index_after(committed), index_after(snapshot_last_log_id)),
            *self is Never ==> !r,
            *self matches SnapshotPolicy::LogsSinceLast(threshold) ==> match (
                committed,
                snapshot_last_log_id,
            ) {
                (Some(last), Some(kept)) => r == (last.index >= kept.index + threshold),
                (Some(last), None) => r == (last.index + 1 >= threshold),
                (None, Some(kept)) => !r,
                (None, None) => r == (threshold == 0),
            },
    {
        match self {
            SnapshotPolicy::LogsSinceLast(threshold) => {
                next_index(committed) >= next_index(snapshot_last_log_id) + *threshold
            },
            SnapshotPolicy::Never => false,
        }
    }
}

/// The syntax of a snapshot policy.
pub open spec fn policy_syntax() -> Seq<char> {
    "never|since_last:<num>"@
}

/// What stands behind `since_last:`. `None` if the text does not start so, or if there is another
/// colon.
pub open spec fn since_last(src: Seq<char>) -> Option<Seq<char>> {
    let colon = run_length(src, |c: char| c != ':') as int;
    if colon < src.len() && src.take(colon) == "since_last"@ && !src.skip(colon + 1).contains(':') {
        Some(src.skip(colon + 1))
    } else {
        None
    }
}

/// The policy that `src` stands for. Where it does not stand for one, the reason why there is no
/// number behind `since_last:`, or `None` if the text is not of the right form at all.
pub open spec fn snapshot_policy(src: Seq<char>) -> Result<SnapshotPolicy, Option<Seq<char>>> {
    if src == "never"@ {
        Ok(SnapshotPolicy::Never)
    } else {
        match since_last(src) {
            Some(number) => match unsigned(number) {
                Ok(n) => Ok(SnapshotPolicy::LogsSinceLast(n)),
                Err(reason) => Err(Some(reason)),
            },
            None => Err(None),
        }
    }
}

/// Where the first colon stands, or the length of the text if there is none.
fn find_colon(s: &[char]) -> (r: usize)
    ensures
        r == run_length(s@, |c: char| c != ':'),
        r <= s@.len(),
        r < s@.len() <==> s@.contains(':'),
{
    let ghost p = |c: char| c != ':';
    let mut i: usize = 0;
    while i < s.len() && s[i] != ':'
        invariant
            i <= s.len(),
            p == |c: char| c != ':',
            forall|k: int| 0 <= k < i ==> p(#[trigger] s@[k]),
        decreases s.len() - i,
    {
        i += 1;
    }
    proof {
        lemma_run_length_is(s@, p, i as int);
        lemma_run_length(s@, p);
    }
    i
}

/// Read a snapshot policy: `never`, or `since_last:` and a number of logs.
pub fn parse_snapshot_policy(src: &str) -> (r: Result<SnapshotPolicy, ConfigError>)
    ensures
        match r {
            Ok(policy) => snapshot_policy(src@) == Ok::<_, Option<Seq<char>>>(policy),
            Err(error) => match snapshot_policy(src@) {
                Err(Some(reason)) => error.is_invalid_number(src@, reason),
                Err(None) => error.is_invalid_snapshot_policy(src@, policy_syntax()),
                Ok(_) => false,
            },
        },
{
    let chars: Vec<char> = chars_of(src);
    let text: &[char] = chars.as_slice();
    if same_chars(text, chars_of("never").as_slice()) {
        return Ok(SnapshotPolicy::Never);
    }
    let colon: usize = find_colon(text);
    if colon < text.len() {
        let number: &[char] = slice_subrange(text, colon + 1, text.len());
        proof {
            assert(text@.subrange(0, colon as int) =~= text@.take(colon as int));
            assert(number@ =~= text@.skip(colon + 1));
        }
        if find_colon(number) == number.len() && same_chars(
            slice_subrange(text, 0, colon),
            chars_of("since_last").as_slice(),
        ) {
            return match parse_unsigned(number) {
                Ok(n_logs) => Ok(SnapshotPolicy::LogsSinceLast(n_logs)),
                Err(reason) => Err(ConfigError::InvalidNumber { invalid: src.to_owned(), reason }),
            };
        }
    }
    Err(
        ConfigError::InvalidSnapshotPolicy {
            syntax: "never|since_last:<num>".to_owned(),
            invalid: src.to_owned(),
        },
    )
}

/// Only the indexes decide whether a snapshot is due, whoever the leaders are: the last committed
/// log is at least the threshold ahead of the last log in a snapshot, or, without a snapshot, the
/// threshold is not above the number of logs from the first one on.
pub proof fn law_indexes_decide<NID: NodeId>(
    threshold: u64,
    committed: LogId<NID>,
    snapshot: LogId<NID>,
    since_snapshot: bool,
    since_start: bool,
)
    requires
        call_ensures(
            SnapshotPolicy::should_snapshot::<NID>,
            (&SnapshotPolicy::LogsSinceLast(threshold), Some(&committed), Some(&snapshot)),
            since_snapshot,
        ),
        call_ensures(
            SnapshotPolicy::should_snapshot::<NID>,
            (&SnapshotPolicy::LogsSinceLast(threshold), Some(&committed), None),
            since_start,
        ),
    ensures
        since_snapshot <==> committed.index >= snapshot.index + threshold,
        since_start <==> committed.index + 1 >= threshold,
{
}

/// As long as nothing is committed, a snapshot is only due if there is no threshold to reach and no
/// snapshot yet.
pub proof fn law_nothing_committed<NID: NodeId>(
    threshold: u64,
    snapshot: LogId<NID>,
    with_snapshot: bool,
    without_snapshot: bool,
)
    requires
        call_ensures(
            SnapshotPolicy::should_snapshot::<NID>,
            (&SnapshotPolicy::LogsSinceLast(threshold), None, Some(&snapshot)),
            with_snapshot,
        ),
        call_ensures(
            SnapshotPolicy::should_snapshot::<NID>,
            (&SnapshotPolicy::LogsSinceLast(threshold), None, None),
            without_snapshot,
        ),
    ensures
        !with_snapshot,
        without_snapshot <==> threshold == 0,
{
}

/// With the policy `Never` no snapshot is ever due.
pub proof fn law_never_is_never<NID: NodeId>(
    committed: Option<&LogId<NID>>,
    snapshot: Option<&LogId<NID>>,
    r: bool,
)
    requires
        call_ensures(
            SnapshotPolicy::should_snapshot::<NID>,
            (&SnapshotPolicy::Never, committed, snapshot),
            r,
        ),
    ensures
        !r,
{
}

/// A copy of a policy is the same policy.
pub proof fn law_copied_policy_is_the_same(policy: SnapshotPolicy, r: SnapshotPolicy)
    requires
        call_ensures(SnapshotPolicy::clone, (&policy,), r),
    ensures
        r == policy,
{
}

/// A snapshot that is due stays due while more logs are committed, until one is built.
pub proof fn law_due_snapshot_stays_due(
    policy: SnapshotPolicy,
    committed: nat,
    later: nat,
    in_snapshot: nat,
)
    requires
        policy.is_due(committed, in_snapshot),
        committed <= later,
    ensures
        policy.is_due(later, in_snapshot),
{
}

/// A snapshot of all committed logs is followed by the next one as soon as `threshold` more logs
/// are committed, and not before.
pub proof fn law_snapshot_after_threshold(threshold: u64, in_snapshot: nat, more: nat)
    ensures
        SnapshotPolicy::LogsSinceLast(threshold).is_due(in_snapshot + more, in_snapshot) <==> more
            >= threshold,
        !SnapshotPolicy::Never.is_due(in_snapshot + more, in_snapshot),
{
}

/// Every number of logs can be written in a policy: `since_last:` and its decimal digits.
pub proof fn law_every_threshold_can_be_read(threshold: u64)
    ensures
        snapshot_policy("since_last:"@ + decimal(threshold as nat)) == Ok::<_, Option<Seq<char>>>(
            SnapshotPolicy::LogsSinceLast(threshold),
        ),
{
    let digits = decimal(threshold as nat);
    lemma_decimal(threshold as nat);
    assert forall|i: int| 0 <= i < digits.len() implies (#[trigger] digits[i]) != ':' by {
        assert(is_digit(digits[i]));
    }
    lemma_since_last("since_last:"@ + digits, digits);
    lemma_unsigned_of_digits(digits);
}

/// What is read from `since_last:` and any text without a further colon: the number of logs in that
/// text, or the reason why there is none, for the first fault from the left.
pub proof fn law_number_of_logs_is_read(
    src: &str,
    number: Seq<char>,
    plus: bool,
    digits: Seq<char>,
    rest: Seq<char>,
    r: Result<SnapshotPolicy, ConfigError>,
)
    requires
        src@ == "since_last:"@ + number,
        forall|i: int| 0 <= i < number.len() ==> (#[trigger] number[i]) != ':',
        is_number_text(number, plus, digits, rest),
        call_ensures(parse_snapshot_policy, (src,), r),
    ensures
        number.len() > 0 && rest.len() == 0 && decimal_value(digits) <= u64::MAX ==> r == Ok::<
            _,
            ConfigError,
        >(SnapshotPolicy::LogsSinceLast(decimal_value(digits) as u64)),
        r is Ok <==> number.len() > 0 && rest.len() == 0 && decimal_value(digits) <= u64::MAX,
        r matches Err(error) ==> {
            &&& error is InvalidNumber
            &&& error->InvalidNumber_invalid@ == src@
            &&& error->reason@ == (if number.len() == 0 {
                "cannot parse integer from empty string"@
            } else if decimal_value(digits) > u64::MAX {
                "number too large to fit in target type"@
            } else {
                "invalid digit found in string"@
            })
        },
{
    lemma_since_last(src@, number);
    lemma_unsigned_of(number, plus, digits, rest);
}

/// `never`, and no other text, is the policy `Never`. A text that is neither `never` nor
/// `since_last:` with a text without a colon behind it is no policy at all, and the error says how
/// one is written.
pub proof fn law_form_of_a_policy(src: &str, r: Result<SnapshotPolicy, ConfigError>)
    requires
        call_ensures(parse_snapshot_policy, (src,), r),
    ensures
        r == Ok::<_, ConfigError>(SnapshotPolicy::Never) <==> src@ == "never"@,
        ({
            let is_policy = src@ == "never"@ || exists|number: Seq<char>|
                {
                    &&& src@ == #[trigger] ("since_last:"@ + number)
                    &&& forall|i: int| 0 <= i < number.len() ==> (#[trigger] number[i]) != ':'
                };
            &&& !is_policy <==> r is Err && r->Err_0 is InvalidSnapshotPolicy
            &&& !is_policy ==> r->Err_0->InvalidSnapshotPolicy_invalid@ == src@
                && r->Err_0->syntax@ == "never|since_last:<num>"@
        }),
{
    reveal_strlit("since_last:");
    reveal_strlit("since_last");
    reveal_strlit("never");
    let text = src@;
    let p = |c: char| c != ':';
    let colon = run_length(text, p) as int;
    lemma_run_length(text, p);
    if let Some(number) = since_last(text) {
        assert(text =~= "since_last:"@ + number) by {
            assert(text[colon] == ':');
            assert(text =~= text.take(colon) + seq![':'] + number);
            assert("since_last:"@ =~= "since_last"@ + seq![':']);
        }
        assert forall|i: int| 0 <= i < number.len() implies (#[trigger] number[i]) != ':' by {
            assert(number.contains(number[i]));
        }
    }
    assert forall|number: Seq<char>|
        text == #[trigger] ("since_last:"@ + number) && (forall|i: int|
            0 <= i < number.len() ==> (#[trigger] number[i]) != ':') implies since_last(text) == Some(
        number,
    ) && text != "never"@ by {
        lemma_since_last(text, number);
    }
}

/// A text without a colon behind `since_last:` is what is read as the number.
proof fn lemma_since_last(src: Seq<char>, number: Seq<char>)
    requires
        src == "since_last:"@ + number,
        forall|i: int| 0 <= i < number.len() ==> (#[trigger] number[i]) != ':',
    ensures
        since_last(src) == Some(number),
        src != "never"@,
{
    reveal_strlit("since_last:");
    reveal_strlit("since_last");
    reveal_strlit("never");
    assert(src[0] == 's');
    let colon = "since_last"@.len() as int;
    assert(src[colon] == ':');
    lemma_run_length_is(src, |c: char| c != ':', colon);
    assert(src.take(colon) =~= "since_last"@);
    assert(src.skip(colon + 1) =~= number);
}

} // verus!
