//! The line-prefixing engine: decimal labels, space padding, and the
//! re-indentation of multi-line text.

use vstd::prelude::*;
use vstd::string::StrSliceExecFns;
use vstd::string::StringExecFns;

verus! {

/// The character for a single decimal digit.
pub open spec fn digit_char(d: nat) -> char {
    if d == 0 {
        '0'
    } else if d == 1 {
        '1'
    } else if d == 2 {
        '2'
    } else if d == 3 {
        '3'
    } else if d == 4 {
        '4'
    } else if d == 5 {
        '5'
    } else if d == 6 {
        '6'
    } else if d == 7 {
        '7'
    } else if d == 8 {
        '8'
    } else {
        '9'
    }
}

/// The usual decimal rendering of `n`: most significant digit first, no
/// leading zeroes (a single `'0'` for zero itself).
pub open spec fn dec_digits(n: nat) -> Seq<char>
    decreases n,
{
    if n < 10 {
        seq![digit_char(n)]
    } else {
        dec_digits(n / 10) + seq![digit_char(n % 10)]
    }
}

/// `n` space characters.
pub open spec fn spaces(n: nat) -> Seq<char>
    decreases n,
{
    if n == 0 {
        Seq::<char>::empty()
    } else {
        spaces((n - 1) as nat).push(' ')
    }
}

pub proof fn lemma_spaces_len(n: nat)
    ensures
        spaces(n).len() == n,
        forall|i: int| 0 <= i < n ==> spaces(n)[i] == ' ',
    decreases n,
{
    if n > 0 {
        lemma_spaces_len((n - 1) as nat);
    }
}

pub proof fn lemma_spaces_add(a: nat, b: nat)
    ensures
        spaces(a + b) == spaces(a) + spaces(b),
    decreases b,
{
    if b == 0 {
        assert(spaces(a) + spaces(0) =~= spaces(a));
    } else {
        lemma_spaces_add(a, (b - 1) as nat);
        assert(spaces(a) + spaces((b - 1) as nat).push(' ') =~= (spaces(a) + spaces(
            (b - 1) as nat,
        )).push(' '));
    }
}

pub proof fn lemma_dec_digits_no_newline(n: nat)
    ensures
        newline_free(dec_digits(n)),
    decreases n,
{
    if n >= 10 {
        lemma_dec_digits_no_newline(n / 10);
    }
}

/// `text` with every newline rewritten into a newline followed by `prefix`,
/// so that each continuation line of a multi-line text begins with `prefix`.
/// The first line is untouched here; the caller writes its own prefix before
/// the text.
pub open spec fn reindented(text: Seq<char>, prefix: Seq<char>) -> Seq<char>
    decreases text.len(),
{
    if text.len() == 0 {
        Seq::<char>::empty()
    } else {
        let rest = reindented(text.drop_last(), prefix);
        if text.last() == '\n' {
            rest + seq!['\n'] + prefix
        } else {
            rest.push(text.last())
        }
    }
}

pub proof fn lemma_reindented_step(text: Seq<char>, prefix: Seq<char>, i: int)
    requires
        0 <= i < text.len(),
    ensures
        text[i] == '\n' ==> reindented(text.take(i + 1), prefix) == reindented(
            text.take(i),
            prefix,
        ) + seq!['\n'] + prefix,
        text[i] != '\n' ==> reindented(text.take(i + 1), prefix) == reindented(
            text.take(i),
            prefix,
        ).push(text[i]),
{
    let t = text.take(i + 1);
    assert(t.drop_last() =~= text.take(i));
    assert(t.last() == text[i]);
}

/// Holds no newline character.
pub open spec fn newline_free(s: Seq<char>) -> bool {
    forall|i: int| 0 <= i < s.len() ==> s[i] != '\n'
}

/// The lines of `s`: the runs of characters between its newlines. A text
/// without newlines is one line; every newline ends a line, so a trailing
/// newline is followed by one empty final line.
pub open spec fn lines_of(s: Seq<char>) -> Seq<Seq<char>>
    decreases s.len(),
{
    if s.len() == 0 {
        seq![Seq::<char>::empty()]
    } else if s.last() == '\n' {
        lines_of(s.drop_last()).push(Seq::<char>::empty())
    } else {
        let prev = lines_of(s.drop_last());
        prev.update(prev.len() - 1, prev.last().push(s.last()))
    }
}

pub proof fn lemma_lines_of_nonempty(s: Seq<char>)
    ensures
        lines_of(s).len() >= 1,
    decreases s.len(),
{
    if s.len() > 0 {
        lemma_lines_of_nonempty(s.drop_last());
    }
}

/// A newline-free text is a single line.
pub proof fn lemma_lines_of_single(s: Seq<char>)
    requires
        newline_free(s),
    ensures
        lines_of(s) == seq![s],
    decreases s.len(),
{
    if s.len() == 0 {
        assert(s =~= Seq::<char>::empty());
        assert(lines_of(s) =~= seq![s]);
    } else {
        assert(newline_free(s.drop_last()));
        lemma_lines_of_single(s.drop_last());
        assert(s.drop_last().push(s.last()) =~= s);
        assert(seq![s.drop_last()].update(0, s) =~= seq![s]);
    }
}

/// Appending newline-free text extends the last line and nothing else.
pub proof fn lemma_lines_of_append_free(x: Seq<char>, p: Seq<char>)
    requires
        newline_free(p),
    ensures
        lines_of(x + p) == lines_of(x).update(
            lines_of(x).len() - 1,
            lines_of(x).last() + p,
        ),
    decreases p.len(),
{
    lemma_lines_of_nonempty(x);
    let lx = lines_of(x);
    if p.len() == 0 {
        assert(x + p =~= x);
        assert(lx.last() + p =~= lx.last());
        assert(lx.update(lx.len() - 1, lx.last()) =~= lx);
    } else {
        assert(newline_free(p.drop_last()));
        lemma_lines_of_append_free(x, p.drop_last());
        let mid = lx.update(lx.len() - 1, lx.last() + p.drop_last());
        assert((x + p).drop_last() =~= x + p.drop_last());
        assert((x + p).last() == p.last());
        assert(p.last() != '\n');
        assert(lines_of(x + p) == mid.update(mid.len() - 1, mid.last().push(p.last())));
        assert(mid.last().push(p.last()) =~= lx.last() + p);
        assert(mid.update(mid.len() - 1, lx.last() + p) =~= lx.update(lx.len() - 1, lx.last() + p));
    }
}

/// Prepending newline-free text extends the first line and nothing else.
pub proof fn lemma_lines_of_prepend_free(p: Seq<char>, x: Seq<char>)
    requires
        newline_free(p),
    ensures
        lines_of(p + x) == lines_of(x).update(0, p + lines_of(x).first()),
    decreases x.len(),
{
    lemma_lines_of_nonempty(x);
    if x.len() == 0 {
        lemma_lines_of_single(p);
        assert(p + x =~= p);
        assert(p + lines_of(x).first() =~= p);
        assert(lines_of(x).update(0, p + lines_of(x).first()) =~= seq![p]);
    } else {
        let t = x.drop_last();
        let c = x.last();
        lemma_lines_of_prepend_free(p, t);
        lemma_lines_of_nonempty(t);
        let prev = lines_of(t);
        let pprev = lines_of(p + t);
        assert((p + x).drop_last() =~= p + t);
        assert((p + x).last() == c);
        if c == '\n' {
            assert(lines_of(p + x) == pprev.push(Seq::<char>::empty()));
            assert(lines_of(x) == prev.push(Seq::<char>::empty()));
            assert(pprev.push(Seq::<char>::empty()) =~= lines_of(x).update(
                0,
                p + lines_of(x).first(),
            ));
        } else {
            assert(lines_of(p + x) == pprev.update(pprev.len() - 1, pprev.last().push(c)));
            assert(lines_of(x) == prev.update(prev.len() - 1, prev.last().push(c)));
            if prev.len() == 1 {
                assert(pprev =~= seq![p + prev[0]]);
                assert((p + prev[0]).push(c) =~= p + prev[0].push(c));
                assert(lines_of(p + x) =~= lines_of(x).update(0, p + lines_of(x).first()));
            } else {
                assert(pprev.last() == prev.last());
                assert(lines_of(p + x) =~= lines_of(x).update(0, p + lines_of(x).first()));
            }
        }
    }
}

/// The engine keeps the line structure of the text it writes: the lines of
/// `prefix + reindented(text, prefix)` are exactly the lines of `text`, each
/// with `prefix` put in front of it.
pub proof fn lemma_reindented_lines(text: Seq<char>, prefix: Seq<char>)
    requires
        newline_free(prefix),
    ensures
        lines_of(prefix + reindented(text, prefix)) == lines_of(text).map_values(
            |l: Seq<char>| prefix + l,
        ),
    decreases text.len(),
{
    let f = |l: Seq<char>| prefix + l;
    lemma_lines_of_nonempty(text);
    if text.len() == 0 {
        assert(prefix + reindented(text, prefix) =~= prefix);
        lemma_lines_of_single(prefix);
        assert(lines_of(text) =~= seq![Seq::<char>::empty()]);
        assert(prefix + Seq::<char>::empty() =~= prefix);
        assert(lines_of(text).map_values(f) =~= seq![prefix]);
    } else {
        let t = text.drop_last();
        let c = text.last();
        lemma_reindented_lines(t, prefix);
        lemma_lines_of_nonempty(t);
        let base = prefix + reindented(t, prefix);
        let lt = lines_of(t);
        if c == '\n' {
            assert(reindented(text, prefix) == reindented(t, prefix) + seq!['\n'] + prefix);
            let with_nl = base.push('\n');
            assert(prefix + reindented(text, prefix) =~= with_nl + prefix);
            assert(with_nl.drop_last() =~= base);
            assert(lines_of(with_nl) == lines_of(base).push(Seq::<char>::empty()));
            lemma_lines_of_append_free(with_nl, prefix);
            let lw = lines_of(with_nl);
            assert(lw.last() + prefix =~= prefix);
            assert(lw.update(lw.len() - 1, prefix) =~= lines_of(base).push(prefix));
            assert(lines_of(text) == lt.push(Seq::<char>::empty()));
            assert(lines_of(text).map_values(f) =~= lt.map_values(f).push(prefix));
        } else {
            assert(reindented(text, prefix) == reindented(t, prefix).push(c));
            assert(prefix + reindented(text, prefix) =~= base.push(c));
            assert(base.push(c).drop_last() =~= base);
            let lb = lines_of(base);
            assert(lb == lt.map_values(f));
            lemma_lines_of_nonempty(base);
            assert(lines_of(base.push(c)) == lb.update(lb.len() - 1, lb.last().push(c)));
            assert(lines_of(text) == lt.update(lt.len() - 1, lt.last().push(c)));
            assert(lb.last() == f(lt.last()));
            assert(lb.last().push(c) =~= f(lt.last().push(c)));
            assert(lb.update(lb.len() - 1, f(lt.last().push(c))) =~= lines_of(text).map_values(f));
        }
    }
}

/// Appends to `out` the single decimal digit `d`.
fn append_digit(out: &mut String, d: usize)
    requires
        d < 10,
    ensures
        final(out)@ == old(out)@.push(digit_char(d as nat)),
{
    let piece: &str = if d == 0 {
        "0"
    } else if d == 1 {
        "1"
    } else if d == 2 {
        "2"
    } else if d == 3 {
        "3"
    } else if d == 4 {
        "4"
    } else if d == 5 {
        "5"
    } else if d == 6 {
        "6"
    } else if d == 7 {
        "7"
    } else if d == 8 {
        "8"
    } else {
        "9"
    };
    proof {
        reveal_strlit("0");
        reveal_strlit("1");
        reveal_strlit("2");
        reveal_strlit("3");
        reveal_strlit("4");
        reveal_strlit("5");
        reveal_strlit("6");
        reveal_strlit("7");
        reveal_strlit("8");
        reveal_strlit("9");
    }
    assert(piece@ =~= seq![digit_char(d as nat)]);
    out.append(piece);
    assert(out@ =~= old(out)@.push(digit_char(d as nat)));
}

/// Appends to `out` the decimal rendering of `n`.
pub fn append_dec(out: &mut String, n: usize)
    ensures
        final(out)@ == old(out)@ + dec_digits(n as nat),
    decreases n,
{
    if n < 10 {
        append_digit(out, n);
        assert(out@ =~= old(out)@ + dec_digits(n as nat));
    } else {
        assert(n / 10 < n && n % 10 < 10) by (nonlinear_arith)
            requires
                n >= 10,
        ;
        append_dec(out, n / 10);
        append_digit(out, n % 10);
        assert(out@ =~= old(out)@ + dec_digits(n as nat));
    }
}

/// A string of `n` spaces.
pub fn make_spaces(n: usize) -> (s: String)
    ensures
        s@ == spaces(n as nat),
{
    let mut s = String::new();
    let mut i: usize = 0;
    while i < n
        invariant
            i <= n,
            s@ == spaces(i as nat),
        decreases n - i,
    {
        proof {
            reveal_strlit(" ");
        }
        s.append(" ");
        assert(s@ =~= spaces((i + 1) as nat));
        i = i + 1;
    }
    s
}

/// Appends to `out` the text `text` with every newline in it rewritten into a
/// newline followed by `prefix`.
pub fn append_reindented(out: &mut String, text: &str, prefix: &str)
    ensures
        final(out)@ == old(out)@ + reindented(text@, prefix@),
{
    let n = text.unicode_len();
    let mut i: usize = 0;
    while i < n
        invariant
            i <= n,
            n == text@.len(),
            out@ == old(out)@ + reindented(text@.take(i as int), prefix@),
        decreases n - i,
    {
        let c = text.get_char(i);
        if c == '\n' {
            proof {
                reveal_strlit("\n");
            }
            out.append("\n");
            out.append(prefix);
        } else {
            let piece = text.substring_char(i, i + 1);
            assert(piece@ =~= seq![text@[i as int]]);
            out.append(piece);
        }
        proof {
            lemma_reindented_step(text@, prefix@, i as int);
            assert(out@ =~= old(out)@ + reindented(text@.take(i + 1), prefix@));
        }
        i = i + 1;
    }
    proof {
        assert(text@.take(n as int) =~= text@);
    }
}

} // verus!
