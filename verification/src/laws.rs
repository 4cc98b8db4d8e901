//! The properties the library states of itself, proved over the report model.

use crate::error::ErrorNode;
use crate::error::chain_view;
use crate::indent::lemma_dec_digits_no_newline;
use crate::indent::lemma_lines_of_nonempty;
use crate::indent::lemma_lines_of_prepend_free;
use crate::indent::lemma_reindented_lines;
use crate::indent::lemma_spaces_len;
use crate::indent::lines_of;
use crate::indent::newline_free;
use crate::indent::reindented;
use crate::indent::spaces;
use crate::report::caused_by_line;
use crate::report::entries_view;
use crate::report::entry_view;
use crate::report::fixed_indent;
use crate::report::header_view;
use crate::report::label_view;
use crate::report::normal_report;
use crate::report::report_view;
use vstd::prelude::*;

verus! {

/// `haystack` holds `needle` as a contiguous run of characters.
pub open spec fn contains_seq(haystack: Seq<char>, needle: Seq<char>) -> bool {
    exists|i: int|
        0 <= i && i + needle.len() <= haystack.len() && #[trigger] haystack.subrange(
            i,
            i + needle.len(),
        ) == needle
}

/// An error with no cause renders, in either mode, as exactly its display
/// text: no header, no entries.
pub proof fn lemma_no_cause(root: ErrorNode, alternate: bool)
    requires
        root.cause is None,
    ensures
        report_view(root, alternate) == root.text@,
{
}

/// Exactly one cause, itself with no further cause: the report is the root
/// text, a blank line, the `Caused by:` line, and one un-numbered block whose
/// first and continuation lines are all indented by the fixed width.
pub proof fn lemma_single_cause(root: ErrorNode)
    requires
        chain_view(root).len() == 1,
    ensures
        normal_report(root) == root.text@ + header_view() + seq!['\n'] + fixed_indent()
            + reindented(chain_view(root)[0], fixed_indent()),
{
    let cv = chain_view(root);
    assert(entries_view(cv, 1, false) == entries_view(cv, 0, false) + entry_view(0, cv[0], false));
    assert(root.text@ + header_view() + entries_view(cv, 1, false) =~= root.text@ + header_view()
        + seq!['\n'] + fixed_indent() + reindented(cv[0], fixed_indent()));
}

/// A chain of depth two or more is numbered: the report is the root text, the
/// header, and one numbered entry per chain element, in chain order.
pub proof fn lemma_numbered_report(root: ErrorNode)
    requires
        chain_view(root).len() >= 2,
    ensures
        normal_report(root) == root.text@ + header_view() + entries_view(
            chain_view(root),
            chain_view(root).len(),
            true,
        ),
{
}

/// Numbered entry `i` opens with the fixed indent and then the decimal label
/// `"i: "` — the numbering starts at zero and is consecutive, with no gaps —
/// and every continuation line of its text is indented by exactly the
/// combined width of indent and label, so continuation lines align under the
/// entry's text, not under the numeric label.
pub proof fn lemma_numbered_entry(chain: Seq<Seq<char>>, i: int)
    requires
        0 <= i < chain.len(),
    ensures
        entries_view(chain, (i + 1) as nat, true) == entries_view(chain, i as nat, true)
            + seq!['\n'] + fixed_indent() + label_view(i as nat) + reindented(
            chain[i],
            spaces(fixed_indent().len() + label_view(i as nat).len()),
        ),
        spaces(fixed_indent().len() + label_view(i as nat).len()).len() == fixed_indent().len()
            + label_view(i as nat).len(),
{
    lemma_spaces_len(fixed_indent().len() + label_view(i as nat).len());
    assert(entries_view(chain, (i + 1) as nat, true) == entries_view(chain, i as nat, true)
        + entry_view(i as nat, chain[i], true));
    assert(entries_view(chain, i as nat, true) + entry_view(i as nat, chain[i], true)
        =~= entries_view(chain, i as nat, true) + seq!['\n'] + fixed_indent() + label_view(
        i as nat,
    ) + reindented(chain[i], spaces(fixed_indent().len() + label_view(i as nat).len())));
}

/// In an un-numbered block every line of the cause's text — the first line
/// and every continuation line — comes out behind the fixed four-space
/// indent, and no line is added or lost.
pub proof fn lemma_unnumbered_block_lines(text: Seq<char>)
    ensures
        lines_of(fixed_indent() + reindented(text, fixed_indent())) == lines_of(text).map_values(
            |l: Seq<char>| fixed_indent() + l,
        ),
{
    assert(newline_free(fixed_indent()));
    lemma_reindented_lines(text, fixed_indent());
}

/// In a numbered entry the first line of the text comes out behind the fixed
/// indent and the label `"n: "`, and every continuation line behind padding
/// of spaces only, exactly as wide as indent and label together, so
/// continuation lines align under the text, not under the numeric label.
pub proof fn lemma_numbered_entry_lines(n: nat, text: Seq<char>)
    ensures
        lines_of(
            fixed_indent() + label_view(n) + reindented(
                text,
                spaces(fixed_indent().len() + label_view(n).len()),
            ),
        ).len() == lines_of(text).len(),
        lines_of(
            fixed_indent() + label_view(n) + reindented(
                text,
                spaces(fixed_indent().len() + label_view(n).len()),
            ),
        ).first() == fixed_indent() + label_view(n) + lines_of(text).first(),
        forall|i: int|
            1 <= i < lines_of(text).len() ==> #[trigger] lines_of(
                fixed_indent() + label_view(n) + reindented(
                    text,
                    spaces(fixed_indent().len() + label_view(n).len()),
                ),
            )[i] == spaces(fixed_indent().len() + label_view(n).len()) + lines_of(text)[i],
{
    let label = fixed_indent() + label_view(n);
    let w = label.len();
    let pad = spaces(w);
    lemma_spaces_len(w);
    assert(newline_free(pad));
    lemma_dec_digits_no_newline(n);
    assert(newline_free(label));
    let reind = reindented(text, pad);
    let lt = lines_of(text);
    let lr = lines_of(reind);
    lemma_lines_of_nonempty(text);
    lemma_lines_of_nonempty(reind);
    lemma_reindented_lines(text, pad);
    lemma_lines_of_prepend_free(pad, reind);
    lemma_lines_of_prepend_free(label, reind);
    let m = lt.map_values(|l: Seq<char>| pad + l);
    assert(lr.update(0, pad + lr.first()) == m);
    assert(m.len() == lt.len());
    assert(lr.len() == lt.len());
    assert(pad + lr.first() == m.first());
    assert(m.first() == pad + lt.first());
    assert(lr.first() =~= (pad + lr.first()).skip(pad.len() as int));
    assert(lt.first() =~= (pad + lt.first()).skip(pad.len() as int));
    assert(lr.first() == lt.first());
    assert forall|i: int| 1 <= i < lt.len() implies #[trigger] lines_of(label + reind)[i] == pad
        + lt[i] by {
        assert(lines_of(label + reind)[i] == lr[i]);
        assert(lr[i] == m[i]);
    }
}

/// Rendering is deterministic: one error, one mode, one possible report. Two
/// renderings of the same error in the same mode are identical character for
/// character, so independent sinks receive byte-identical output.
pub proof fn lemma_render_deterministic(
    root: ErrorNode,
    alternate: bool,
    first: Seq<char>,
    second: Seq<char>,
)
    requires
        first == report_view(root, alternate),
        second == report_view(root, alternate),
    ensures
        first == second,
{
}

/// Alternate mode bypasses the chain and indentation machinery entirely: its
/// output is the root's raw display text, whatever the chain's length — and
/// so, whenever that text does not itself hold the `Caused by:` line, neither
/// does the alternate-mode report.
pub proof fn lemma_alternate_bypasses(root: ErrorNode)
    ensures
        report_view(root, true) == root.text@,
        !contains_seq(root.text@, caused_by_line()) ==> !contains_seq(
            report_view(root, true),
            caused_by_line(),
        ),
{
}

} // verus!
