//! Request decisions of the hexrun server: the prompt it runs and the
//! timestamps it reports.

use vstd::prelude::*;
use crate::text::{owned, str_eq, fmt_two_digits, two_digits};

verus! {

/// A chat message as a client sent it to hexrun.
pub struct WireMessage {
    /// The speaker's role (`user`, `assistant`, `system`, ...).
    pub role: String,
    /// Message text.
    pub content: String,
}

/// Index of the last message whose role is `user`.
pub open spec fn last_user_index(ms: Seq<WireMessage>) -> Option<int>
    decreases ms.len(),
{
    if ms.len() == 0 {
        None
    } else if ms.last().role@ == "user"@ {
        Some(ms.len() - 1)
    } else {
        last_user_index(ms.drop_last())
    }
}

/// The text of the most recent user message (hexrun answers that one
/// alone); `None` when there is none.
pub fn latest_user_message(messages: &[WireMessage]) -> (r: Option<String>)
    ensures
        match last_user_index(messages@) {
            Some(i) => r matches Some(s) && s@ == messages@[i].content@,
            None => r is None,
        },
{
    let mut i: usize = messages.len();
    proof {
        assert(messages@.take(i as int) =~= messages@);
    }
    while i > 0
        invariant
            i <= messages@.len(),
            last_user_index(messages@) == last_user_index(messages@.take(i as int)),
        decreases i,
    {
        proof {
            assert(messages@.take(i as int).drop_last() =~= messages@.take(i - 1));
            assert(messages@.take(i as int).last() == messages@[i - 1]);
        }
        if str_eq(messages[i - 1].role.as_str(), "user") {
            return Some(owned(messages[i - 1].content.as_str()));
        }
        i = i - 1;
    }
    proof {
        assert(messages@.take(0) =~= Seq::<WireMessage>::empty());
    }
    None
}

/// hexrun's rough timestamp: the time of day of `secs` seconds after the
/// epoch, on the epoch's date (`1970-01-01Thh:mm:ssZ`).
pub open spec fn epoch_day_stamp(secs: nat) -> Seq<char> {
    let rem = secs % 86400;
    "1970-01-01T"@ + two_digits(rem / 3600) + seq![':'] + two_digits((rem % 3600) / 60) + seq![
        ':',
    ] + two_digits(rem % 60) + seq!['Z']
}

/// The timestamp hexrun reports for `secs` seconds after the epoch.
pub fn epoch_day_timestamp(secs: u64) -> (r: String)
    ensures
        r@ == epoch_day_stamp(secs as nat),
{
    let rem = secs % 86400;
    let mut out = owned("1970-01-01T");
    out.append(fmt_two_digits(rem / 3600).as_str());
    out.push(':');
    out.append(fmt_two_digits((rem % 3600) / 60).as_str());
    out.push(':');
    out.append(fmt_two_digits(rem % 60).as_str());
    out.push('Z');
    out
}

} // verus!
