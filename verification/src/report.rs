//! The indenting renderer: the shape of the report, and the `render` pass
//! that writes it.

use crate::error::ErrorNode;
use crate::error::chain_view;
use crate::error::walk;
use crate::indent::append_dec;
use crate::indent::append_reindented;
use crate::indent::dec_digits;
use crate::indent::lemma_spaces_add;
use crate::indent::lemma_spaces_len;
use crate::indent::make_spaces;
use crate::indent::reindented;
use crate::indent::spaces;
use vstd::prelude::*;
use vstd::string::StrSliceExecFns;
use vstd::string::StringExecFns;

verus! {

/// The fixed four-space indent used for un-numbered chain entries.
pub open spec fn fixed_indent() -> Seq<char> {
    seq![' ', ' ', ' ', ' ']
}

/// The literal line that opens the cause section.
pub open spec fn caused_by_line() -> Seq<char> {
    "Caused by:"@
}

/// The section header: a blank line, then the `Caused by:` line.
pub open spec fn header_view() -> Seq<char> {
    "\n\n"@ + caused_by_line()
}

/// The numeric label put before the first line of numbered entry `n`.
pub open spec fn label_view(n: nat) -> Seq<char> {
    dec_digits(n) + seq![':', ' ']
}

/// One chain entry: a newline, then the entry's display text through the
/// indentation context. Every entry's first line opens with the fixed indent;
/// a numbered entry puts the label `"{n}: "` after it and indents
/// continuation lines by the combined width of indent and label, so they
/// align under the text, not under the numeric label; an un-numbered entry
/// puts the fixed indent alone before every line.
pub open spec fn entry_view(n: nat, text: Seq<char>, numbered: bool) -> Seq<char> {
    if numbered {
        seq!['\n'] + fixed_indent() + label_view(n) + reindented(
            text,
            spaces(fixed_indent().len() + label_view(n).len()),
        )
    } else {
        seq!['\n'] + fixed_indent() + reindented(text, fixed_indent())
    }
}

/// The first `k` chain entries, in order, entry `i` numbered `i`.
pub open spec fn entries_view(chain: Seq<Seq<char>>, k: nat, numbered: bool) -> Seq<char>
    decreases k,
{
    if k == 0 {
        Seq::<char>::empty()
    } else {
        entries_view(chain, (k - 1) as nat, numbered) + entry_view(
            (k - 1) as nat,
            chain[k - 1],
            numbered,
        )
    }
}

/// The normal-mode report for `root`: its display text verbatim; then, only
/// if it has at least one cause, the header and one entry per chain element.
/// Entries are numbered exactly when the first chain element itself has a
/// further cause, that is, when the chain has more than one element.
pub open spec fn normal_report(root: ErrorNode) -> Seq<char> {
    let chain = chain_view(root);
    if chain.len() == 0 {
        root.text@
    } else {
        root.text@ + header_view() + entries_view(chain, chain.len(), chain.len() > 1)
    }
}

/// The full report. Alternate mode is the escape hatch: the chain and
/// indentation machinery is bypassed and the root's raw display text is the
/// whole output.
pub open spec fn report_view(root: ErrorNode, alternate: bool) -> Seq<char> {
    if alternate {
        root.text@
    } else {
        normal_report(root)
    }
}

/// Renders the report for `root` and returns it as one string. The caller
/// owns the sink; handing it the returned text is its concern.
pub fn render(root: &ErrorNode, alternate: bool) -> (out: String)
    ensures
        out@ == report_view(*root, alternate),
{
    if alternate {
        return root.text.clone();
    }
    let mut out = root.text.clone();
    let first: &ErrorNode = match &root.cause {
        Option::None => {
            return out;
        },
        Option::Some(c) => &**c,
    };
    out.append("\n\n");
    out.append("Caused by:");
    let numbered = match &first.cause {
        Option::Some(_) => true,
        Option::None => false,
    };
    let ghost cv = chain_view(*root);
    proof {
        assert(cv == seq![first.text@] + chain_view(*first));
        assert(chain_view(*first).len() == 0 <==> first.cause is None);
        assert(numbered == (cv.len() > 1));
    }
    let chain = walk(root);
    let len = chain.len();
    let mut k: usize = 0;
    assert(out@ =~= root.text@ + header_view() + entries_view(cv, 0, numbered));
    while k < len
        invariant
            k <= len,
            len == chain@.len(),
            len == cv.len(),
            cv == chain_view(*root),
            forall|i: int| 0 <= i < len ==> chain@[i]@ == cv[i],
            numbered == (cv.len() > 1),
            out@ == root.text@ + header_view() + entries_view(cv, k as nat, numbered),
        decreases len - k,
    {
        proof {
            reveal_strlit("\n");
        }
        out.append("\n");
        let text: &String = &chain[k];
        if numbered {
            proof {
                reveal_strlit("    ");
                lemma_spaces_len(4);
                assert("    "@ =~= fixed_indent());
                assert(spaces(4) =~= fixed_indent());
            }
            out.append("    ");
            let mut label = String::new();
            append_dec(&mut label, k);
            label.append(": ");
            out.append(label.as_str());
            let width = label.as_str().unicode_len();
            proof {
                reveal_strlit(": ");
                assert(label@ =~= label_view(k as nat));
            }
            let mut pad = String::new();
            pad.append("    ");
            let tail = make_spaces(width);
            pad.append(tail.as_str());
            proof {
                lemma_spaces_add(4, label_view(k as nat).len());
                assert(pad@ =~= spaces(4 + label_view(k as nat).len()));
            }
            append_reindented(&mut out, text.as_str(), pad.as_str());
            assert(out@ =~= root.text@ + header_view() + entries_view(cv, k as nat, numbered)
                + entry_view(k as nat, cv[k as int], numbered));
        } else {
            proof {
                reveal_strlit("    ");
                assert("    "@ =~= fixed_indent());
            }
            out.append("    ");
            append_reindented(&mut out, text.as_str(), "    ");
            assert(out@ =~= root.text@ + header_view() + entries_view(cv, k as nat, numbered)
                + entry_view(k as nat, cv[k as int], numbered));
        }
        proof {
            assert(entries_view(cv, (k + 1) as nat, numbered) == entries_view(cv, k as nat, numbered)
                + entry_view(k as nat, cv[k as int], numbered));
            assert(out@ =~= root.text@ + header_view() + entries_view(cv, (k + 1) as nat, numbered));
        }
        k = k + 1;
    }
    out
}

/// The minimal report context: it captures nothing beside the error it is
/// asked to describe.
#[derive(PartialEq, Eq, Structural)]
pub struct Context;

impl Context {
    /// A fresh context for `error`. Nothing is captured from it: this
    /// renderer keeps no state of its own.
    pub fn default(error: &ErrorNode) -> (c: Context)
        ensures
            c == (Context),
    {
        Context
    }

    /// Writes the report for `error` and returns it: the raw display text in
    /// alternate mode, the chained human report otherwise.
    pub fn debug(&self, error: &ErrorNode, alternate: bool) -> (out: String)
        ensures
            out@ == report_view(*error, alternate),
    {
        render(error, alternate)
    }
}

} // verus!
