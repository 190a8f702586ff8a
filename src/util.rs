//! The output records: one line of text per client account.

use crate::account::ClientAccountSnapshot;
use crate::text::{amount_text, digits_text, format_amount, push_digits};
use vstd::prelude::*;

verus! {

pub open spec fn bool_text(b: bool) -> Seq<char> {
    if b {
        "true"@
    } else {
        "false"@
    }
}

/// The line of one summary: `client,available,held,total,locked`.
pub open spec fn snapshot_line(s: ClientAccountSnapshot) -> Seq<char> {
    digits_text(s.client_id as nat) + ","@ + amount_text(s.available) + ","@ + amount_text(s.held)
        + ","@ + amount_text(s.total) + ","@ + bool_text(s.locked)
}

/// The lines of the summaries, each after a line break.
pub open spec fn rows_text(s: Seq<ClientAccountSnapshot>) -> Seq<char>
    decreases s.len(),
{
    if s.len() == 0 {
        seq![]
    } else {
        rows_text(s.drop_last()) + "\n"@ + snapshot_line(s.last())
    }
}

/// The output text: a header line and one line per summary; nothing at all where there
/// is no summary.
pub open spec fn csv_text(s: Seq<ClientAccountSnapshot>) -> Seq<char> {
    if s.len() == 0 {
        seq![]
    } else {
        "client,available,held,total,locked"@ + rows_text(s)
    }
}

impl ClientAccountSnapshot {
    /// Representable amounts.
    pub open spec fn wf(self) -> bool {
        self.available.wf() && self.held.wf() && self.total.wf()
    }

    /// The output line of this summary: `client,available,held,total,locked`, with each
    /// amount rounded to four fractional digits.
    pub fn to_csv_line(&self) -> (r: String)
        requires
            self.wf(),
        ensures
            r@ == snapshot_line(*self),
    {
        let mut out = String::new();
        push_digits(&mut out, self.client_id as u128);
        out.append(",");
        out.append(format_amount(&self.available).as_str());
        out.append(",");
        out.append(format_amount(&self.held).as_str());
        out.append(",");
        out.append(format_amount(&self.total).as_str());
        out.append(",");
        if self.locked {
            out.append("true");
        } else {
            out.append("false");
        }
        assert(out@ =~= snapshot_line(*self));
        out
    }
}

/// The output text of the summaries: the header `client,available,held,total,locked`,
/// then one line per summary, lines apart by `\n`, with no line break at the end; the
/// empty text where there is no summary.
pub fn to_csv_string(values: &Vec<ClientAccountSnapshot>) -> (r: String)
    requires
        forall|i: int| 0 <= i < values@.len() ==> (#[trigger] values@[i]).wf(),
    ensures
        r@ == csv_text(values@),
{
    let mut out = String::new();
    if values.len() == 0 {
        return out;
    }
    out.append("client,available,held,total,locked");
    let mut i: usize = 0;
    while i < values.len()
        invariant
            i <= values@.len(),
            values@.len() > 0,
            forall|k: int| 0 <= k < values@.len() ==> (#[trigger] values@[k]).wf(),
            out@ == "client,available,held,total,locked"@ + rows_text(values@.subrange(0, i as int)),
        decreases values@.len() - i,
    {
        let line = values[i].to_csv_line();
        out.append("\n");
        out.append(line.as_str());
        let ghost pre = values@.subrange(0, i + 1);
        assert(pre.drop_last() =~= values@.subrange(0, i as int));
        i = i + 1;
        assert(out@ =~= "client,available,held,total,locked"@ + rows_text(pre));
    }
    assert(values@.subrange(0, i as int) =~= values@);
    out
}

} // verus!
