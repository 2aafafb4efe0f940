//! The text of a fit, as it is shown and as it is saved, and the log of
//! saved fits.

use crate::decimal::{decimal_text, integer_text, push_decimal, push_integer};
use crate::fit::FitResult;
use crate::registry::{Spacer, SpacerRegistry};
use vstd::prelude::*;
use vstd::string::*;

verus! {

/// The texts of a sequence of strings.
pub open spec fn texts(v: Seq<String>) -> Seq<Seq<char>> {
    Seq::new(v.len(), |i: int| v[i]@)
}

/// One line of a breakdown: the count, the spacer's name and its thickness,
/// with a blank between them.
pub open spec fn line_text(count: nat, spacer: Spacer) -> Seq<char> {
    integer_text(count) + " "@ + spacer.name@ + " "@ + decimal_text(spacer.thickness as nat)
}

/// The lines of a breakdown over the first `n` positions: one line for each
/// spacer that is used at least once, in the inventory's order.
pub open spec fn shown_lines(counts: Seq<u64>, spacers: Seq<Spacer>, n: int) -> Seq<Seq<char>>
    decreases n,
{
    if n <= 0 {
        Seq::empty()
    } else if counts[n - 1] > 0 {
        shown_lines(counts, spacers, n - 1).push(line_text(counts[n - 1] as nat, spacers[n - 1]))
    } else {
        shown_lines(counts, spacers, n - 1)
    }
}

/// The first `n` lines, each on a new line behind a tab.
pub open spec fn indented(lines: Seq<Seq<char>>, n: int) -> Seq<char>
    decreases n,
{
    if n <= 0 {
        Seq::empty()
    } else {
        indented(lines, n - 1) + "\n\t"@ + lines[n - 1]
    }
}

/// The line that tells what a fit leaves over.
pub open spec fn residual_text(residual: nat) -> Seq<char> {
    "Off by "@ + decimal_text(residual)
}

/// The saved form of a fit: the target as it was typed, what is left over,
/// and the lines of the breakdown.
pub open spec fn entry_text(
    target_text: Seq<char>,
    residual: nat,
    counts: Seq<u64>,
    spacers: Seq<Spacer>,
) -> Seq<char> {
    let lines = shown_lines(counts, spacers, spacers.len() as int);
    target_text + " in"@ + "\n\t"@ + residual_text(residual) + indented(lines, lines.len() as int)
}

/// The first `n` entries, one below the other.
pub open spec fn joined(entries: Seq<Seq<char>>, n: int) -> Seq<char>
    decreases n,
{
    if n <= 0 {
        Seq::empty()
    } else if n == 1 {
        entries[0]
    } else {
        joined(entries, n - 1) + "\n"@ + entries[n - 1]
    }
}

/// `line` is the line of a spacer among the first `n` that is used at least
/// once.
pub open spec fn is_line_of_used(
    line: Seq<char>,
    counts: Seq<u64>,
    spacers: Seq<Spacer>,
    n: int,
) -> bool {
    exists|i: int|
        0 <= i < n && #[trigger] counts[i] > 0 && line == line_text(counts[i] as nat, spacers[i])
}

/// A breakdown has a line for each spacer that is used, and no other line.
pub proof fn lemma_shown_lines(counts: Seq<u64>, spacers: Seq<Spacer>, n: int)
    requires
        0 <= n <= spacers.len(),
        counts.len() == spacers.len(),
    ensures
        shown_lines(counts, spacers, n).len() <= n,
        forall|i: int|
            0 <= i < n && #[trigger] counts[i] > 0 ==> shown_lines(counts, spacers, n).contains(
                line_text(counts[i] as nat, spacers[i]),
            ),
        forall|k: int|
            0 <= k < shown_lines(counts, spacers, n).len() ==> is_line_of_used(
                #[trigger] shown_lines(counts, spacers, n)[k],
                counts,
                spacers,
                n,
            ),
    decreases n,
{
    if n > 0 {
        lemma_shown_lines(counts, spacers, n - 1);
        let before = shown_lines(counts, spacers, n - 1);
        let now = shown_lines(counts, spacers, n);
        assert forall|i: int| 0 <= i < n && #[trigger] counts[i] > 0 implies now.contains(
            line_text(counts[i] as nat, spacers[i]),
        ) by {
            if i < n - 1 {
                let line = line_text(counts[i] as nat, spacers[i]);
                assert(before.contains(line));
                let k = choose|k: int| 0 <= k < before.len() && before[k] == line;
                assert(now[k] == line);
            } else {
                assert(now[now.len() - 1] == line_text(counts[i] as nat, spacers[i]));
            }
        }
        assert forall|k: int| 0 <= k < now.len() implies is_line_of_used(
            #[trigger] now[k],
            counts,
            spacers,
            n,
        ) by {
            if k < before.len() {
                assert(now[k] == before[k]);
                assert(is_line_of_used(before[k], counts, spacers, n - 1));
                let i = choose|i: int|
                    0 <= i < n - 1 && #[trigger] counts[i] > 0 && before[k] == line_text(
                        counts[i] as nat,
                        spacers[i],
                    );
                assert(0 <= i < n && counts[i] > 0 && now[k] == line_text(
                    counts[i] as nat,
                    spacers[i],
                ));
            } else {
                assert(counts[n - 1] > 0 && now[k] == line_text(
                    counts[n - 1] as nat,
                    spacers[n - 1],
                ));
            }
        }
    }
}

/// The line that tells what a fit leaves over, as it is shown.
pub fn residual_label(fit: &FitResult) -> (r: String)
    ensures
        r@ == residual_text(fit.residual as nat),
{
    let mut out: String = String::from_str("Off by ");
    push_decimal(&mut out, fit.residual);
    out
}

/// The lines of a fit's breakdown, as they are shown: one for each spacer
/// that is used at least once, in the inventory's order.
pub fn breakdown_lines(fit: &FitResult, registry: &SpacerRegistry) -> (lines: Vec<String>)
    requires
        fit.counts@.len() == registry@.len(),
    ensures
        texts(lines@) == shown_lines(fit.counts@, registry@, registry@.len() as int),
{
    let n: usize = registry.len();
    let mut lines: Vec<String> = Vec::new();
    let mut i: usize = 0;
    assert(texts(lines@) =~= shown_lines(fit.counts@, registry@, 0));
    while i < n
        invariant
            n == registry@.len(),
            fit.counts@.len() == n,
            i <= n,
            texts(lines@) == shown_lines(fit.counts@, registry@, i as int),
        decreases n - i,
    {
        let count: u64 = fit.counts[i];
        if count > 0 {
            let spacer: &Spacer = registry.get(i);
            let mut line: String = String::new();
            push_integer(&mut line, count);
            line.append(" ");
            line.append(spacer.name.as_str());
            line.append(" ");
            push_decimal(&mut line, spacer.thickness);
            let ghost before = lines@;
            proof {
                assert(line@ =~= line_text(count as nat, registry@[i as int]));
            }
            lines.push(line);
            proof {
                assert(texts(lines@) =~= texts(before).push(line@));
            }
        }
        i += 1;
    }
    lines
}

/// The saved form of a fit.
///
/// The first line is the target as it was typed, followed by ` in`. The
/// second tells what is left over. Then comes one line for each spacer that
/// is used at least once, as `breakdown_lines` gives them. Every line but
/// the first stands behind a tab.
pub fn format_entry(target_text: &str, fit: &FitResult, registry: &SpacerRegistry) -> (r: String)
    requires
        fit.counts@.len() == registry@.len(),
    ensures
        r@ == entry_text(target_text@, fit.residual as nat, fit.counts@, registry@),
{
    let mut out: String = String::from_str(target_text);
    out.append(" in");
    out.append("\n\t");
    out.append("Off by ");
    push_decimal(&mut out, fit.residual);
    let lines: Vec<String> = breakdown_lines(fit, registry);
    let ghost head = out@;
    let ghost shown = shown_lines(fit.counts@, registry@, registry@.len() as int);
    proof {
        assert(head =~= target_text@ + " in"@ + "\n\t"@ + residual_text(fit.residual as nat));
        assert(out@ =~= head + indented(shown, 0));
    }
    let mut i: usize = 0;
    while i < lines.len()
        invariant
            i <= lines@.len(),
            texts(lines@) == shown,
            out@ == head + indented(shown, i as int),
        decreases lines@.len() - i,
    {
        let ghost before = out@;
        out.append("\n\t");
        out.append(lines[i].as_str());
        proof {
            assert(texts(lines@)[i as int] == lines@[i as int]@);
            assert(out@ =~= head + indented(shown, i + 1));
        }
        i += 1;
    }
    proof {
        assert(shown.len() == lines@.len());
    }
    out
}

/// The saved fits, oldest first. Entries are added at the end and never
/// changed.
pub struct OutputLog {
    entries: Vec<String>,
}

impl View for OutputLog {
    type V = Seq<Seq<char>>;

    closed spec fn view(&self) -> Seq<Seq<char>> {
        texts(self.entries@)
    }
}

impl OutputLog {
    /// A log without entries.
    pub fn new() -> (r: Self)
        ensures
            r@ == Seq::<Seq<char>>::empty(),
    {
        let r = OutputLog { entries: Vec::new() };
        assert(r@ =~= Seq::<Seq<char>>::empty());
        r
    }

    /// The number of entries.
    pub fn len(&self) -> (n: usize)
        ensures
            n == self@.len(),
    {
        self.entries.len()
    }

    /// Whether the log has no entry.
    pub fn is_empty(&self) -> (r: bool)
        ensures
            r == (self@.len() == 0),
    {
        self.entries.len() == 0
    }

    /// The entry at `index`.
    pub fn entry(&self, index: usize) -> (r: &String)
        requires
            index < self@.len(),
        ensures
            r@ == self@[index as int],
    {
        &self.entries[index]
    }

    /// Adds an entry at the end. The entries before it stay as they are.
    pub fn append(&mut self, text: String)
        ensures
            final(self)@ == old(self)@.push(text@),
    {
        self.entries.push(text);
        assert(self@ =~= old(self)@.push(text@));
    }

    /// All entries, one below the other, as they are shown.
    pub fn display_text(&self) -> (r: String)
        ensures
            r@ == joined(self@, self@.len() as int),
    {
        let mut out: String = String::new();
        let n: usize = self.entries.len();
        let mut i: usize = 0;
        assert(out@ =~= joined(self@, 0));
        while i < n
            invariant
                n == self@.len(),
                n == self.entries@.len(),
                i <= n,
                out@ == joined(self@, i as int),
            decreases n - i,
        {
            if i > 0 {
                out.append("\n");
            }
            out.append(self.entries[i].as_str());
            proof {
                assert(self@[i as int] == self.entries@[i as int]@);
                assert(out@ =~= joined(self@, i + 1));
            }
            i += 1;
        }
        out
    }
}

} // verus!
