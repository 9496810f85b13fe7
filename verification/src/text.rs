//! Byte-string utilities the rest of the library is built on: decimal
//! rendering of a year, replacing a token inside a line, and joining lines
//! with newline separators. Text is modelled as byte sequences throughout,
//! since the tool reads and writes files as bytes.

use vstd::prelude::*;

verus! {

/// For byte vectors the deep view and the view coincide.
pub broadcast proof fn lemma_bytes_deep_view(v: Vec<u8>)
    ensures
        #[trigger] v.deep_view() == v@,
{
    assert(v.deep_view() =~= v@);
}

/// The decimal digits of `n`, most significant first.
pub open spec fn dec_digits(n: nat) -> Seq<u8>
    decreases n,
{
    if n < 10 {
        seq![(48 + n) as u8]
    } else {
        dec_digits(n / 10) + seq![(48 + n % 10) as u8]
    }
}

fn push_decimal(n: u32, out: &mut Vec<u8>)
    ensures
        final(out)@ == old(out)@ + dec_digits(n as nat),
    decreases n,
{
    if n < 10 {
        out.push(48 + n as u8);
        assert(out@ =~= old(out)@ + dec_digits(n as nat));
    } else {
        push_decimal(n / 10, out);
        out.push(48 + (n % 10) as u8);
        assert(out@ =~= old(out)@ + dec_digits(n as nat));
    }
}

/// The decimal rendering of `n` as bytes, e.g. `2022` becomes `"2022"`.
pub fn u32_decimal(n: u32) -> (r: Vec<u8>)
    ensures
        r@ == dec_digits(n as nat),
{
    let mut out: Vec<u8> = Vec::new();
    push_decimal(n, &mut out);
    out
}

/// `s` with every occurrence of `pat` replaced by `rep`, scanning left to
/// right without overlap; an empty pattern leaves `s` unchanged.
pub open spec fn replace_all(s: Seq<u8>, pat: Seq<u8>, rep: Seq<u8>) -> Seq<u8>
    decreases s.len(),
{
    if pat.len() == 0 || s.len() < pat.len() {
        s
    } else if s.take(pat.len() as int) == pat {
        rep + replace_all(s.skip(pat.len() as int), pat, rep)
    } else {
        seq![s[0]] + replace_all(s.skip(1), pat, rep)
    }
}

/// Appends `more` to `out`.
pub(crate) fn append_bytes(out: &mut Vec<u8>, more: &Vec<u8>)
    ensures
        final(out)@ == old(out)@ + more@,
{
    let mut j: usize = 0;
    while j < more.len()
        invariant
            j <= more@.len(),
            out@ == old(out)@ + more@.take(j as int),
        decreases more@.len() - j,
    {
        let b = more[j];
        out.push(b);
        assert(out@ =~= old(out)@ + more@.take(j as int + 1));
        j += 1;
    }
    assert(more@.take(more@.len() as int) =~= more@);
}

/// A fresh copy of `s`.
pub(crate) fn bytes_copy(s: &Vec<u8>) -> (r: Vec<u8>)
    ensures
        r@ == s@,
{
    let mut out: Vec<u8> = Vec::new();
    append_bytes(&mut out, s);
    assert(out@ =~= s@);
    out
}

/// The concatenation of `a` and `b`.
pub(crate) fn concat_bytes(a: &Vec<u8>, b: &Vec<u8>) -> (r: Vec<u8>)
    ensures
        r@ == a@ + b@,
{
    let mut out = bytes_copy(a);
    append_bytes(&mut out, b);
    out
}

/// The suffix of `s` starting at `from`.
pub(crate) fn bytes_suffix(s: &Vec<u8>, from: usize) -> (r: Vec<u8>)
    requires
        from <= s@.len(),
    ensures
        r@ == s@.skip(from as int),
{
    let mut out: Vec<u8> = Vec::new();
    let mut j: usize = from;
    while j < s.len()
        invariant
            from <= j <= s@.len(),
            out@ == s@.subrange(from as int, j as int),
        decreases s@.len() - j,
    {
        let b = s[j];
        out.push(b);
        assert(out@ =~= s@.subrange(from as int, j as int + 1));
        j += 1;
    }
    assert(s@.subrange(from as int, s@.len() as int) =~= s@.skip(from as int));
    out
}

/// Whether `pat` occurs in `s` starting exactly at position `i`.
pub(crate) fn match_at(s: &Vec<u8>, i: usize, pat: &Vec<u8>) -> (r: bool)
    requires
        i + pat@.len() <= s@.len(),
    ensures
        r == (s@.subrange(i as int, i + pat@.len()) == pat@),
{
    let n = s.len();
    let mut j: usize = 0;
    while j < pat.len()
        invariant
            j <= pat@.len(),
            i + pat@.len() <= s@.len(),
            n == s@.len(),
            forall|k: int| 0 <= k < j ==> s@[i + k] == pat@[k],
        decreases pat@.len() - j,
    {
        assert(i + j < s@.len());
        if s[i + j] != pat[j] {
            assert(s@.subrange(i as int, i + pat@.len())[j as int] == s@[i + j]);
            return false;
        }
        j += 1;
    }
    assert(s@.subrange(i as int, i + pat@.len()) =~= pat@);
    true
}

/// `s` with every occurrence of `pat` replaced by `rep`, scanning left to
/// right without overlap.
pub fn replace_all_bytes(s: &Vec<u8>, pat: &Vec<u8>, rep: &Vec<u8>) -> (r: Vec<u8>)
    ensures
        r@ == replace_all(s@, pat@, rep@),
{
    if pat.len() == 0 {
        return bytes_copy(s);
    }
    let mut out: Vec<u8> = Vec::new();
    let mut i: usize = 0;
    proof {
        assert(s@.skip(0) =~= s@);
        assert(Seq::<u8>::empty() + replace_all(s@, pat@, rep@) =~= replace_all(s@, pat@, rep@));
    }
    while i < s.len()
        invariant
            i <= s@.len(),
            pat@.len() >= 1,
            replace_all(s@, pat@, rep@) == out@ + replace_all(
                s@.skip(i as int),
                pat@,
                rep@,
            ),
        decreases s@.len() - i,
    {
        let ghost rest = s@.skip(i as int);
        let ghost m = pat@.len() as int;
        if pat.len() <= s.len() - i && match_at(s, i, pat) {
            append_bytes(&mut out, rep);
            proof {
                assert(rest.take(m) =~= s@.subrange(i as int, i + m));
                assert(replace_all(rest, pat@, rep@) == rep@ + replace_all(
                    rest.skip(m),
                    pat@,
                    rep@,
                ));
                assert(rest.skip(m) =~= s@.skip(i + m));
                assert(replace_all(s@, pat@, rep@) =~= out@ + replace_all(
                    s@.skip(i + m),
                    pat@,
                    rep@,
                ));
            }
            i += pat.len();
        } else {
            let b = s[i];
            out.push(b);
            proof {
                assert(rest[0] == s@[i as int]);
                assert(rest.skip(1) =~= s@.skip(i as int + 1));
                if rest.len() < m {
                    assert(replace_all(rest, pat@, rep@) == rest);
                    assert(s@.skip(i as int + 1).len() < m);
                    assert(replace_all(s@.skip(i as int + 1), pat@, rep@) == s@.skip(
                        i as int + 1,
                    ));
                    assert(rest =~= seq![s@[i as int]] + s@.skip(i as int + 1));
                } else {
                    assert(rest.take(m) =~= s@.subrange(i as int, i + m));
                    assert(rest.take(m) != pat@);
                    assert(replace_all(rest, pat@, rep@) == seq![rest[0]] + replace_all(
                        rest.skip(1),
                        pat@,
                        rep@,
                    ));
                }
                assert(replace_all(s@, pat@, rep@) =~= out@ + replace_all(
                    s@.skip(i as int + 1),
                    pat@,
                    rep@,
                ));
            }
            i += 1;
        }
    }
    proof {
        assert(s@.skip(i as int) =~= Seq::<u8>::empty());
        assert(replace_all(Seq::<u8>::empty(), pat@, rep@) == Seq::<u8>::empty());
        assert(out@ + Seq::<u8>::empty() =~= out@);
    }
    out
}

/// Lines joined by a single newline byte, with no trailing newline.
pub open spec fn join_lines(lines: Seq<Seq<u8>>) -> Seq<u8>
    decreases lines.len(),
{
    if lines.len() == 0 {
        Seq::empty()
    } else if lines.len() == 1 {
        lines[0]
    } else {
        lines[0] + seq![10u8] + join_lines(lines.skip(1))
    }
}

fn join_from(lines: &Vec<Vec<u8>>, i: usize, out: &mut Vec<u8>)
    requires
        i < lines@.len(),
    ensures
        final(out)@ == old(out)@ + join_lines(lines.deep_view().skip(i as int)),
    decreases lines@.len() - i,
{
    let ghost dv = lines.deep_view();
    let n = lines.len();
    append_bytes(out, &lines[i]);
    if i + 1 < n {
        out.push(10);
        join_from(lines, i + 1, out);
        proof {
            assert(dv.skip(i as int)[0] == dv[i as int]);
            assert(dv.skip(i as int).skip(1) =~= dv.skip(i as int + 1));
            assert(join_lines(dv.skip(i as int)) == dv[i as int] + seq![10u8] + join_lines(
                dv.skip(i as int + 1),
            ));
            assert(out@ =~= old(out)@ + join_lines(dv.skip(i as int)));
        }
    } else {
        proof {
            assert(dv.skip(i as int).len() == 1);
            assert(dv.skip(i as int)[0] == dv[i as int]);
            assert(join_lines(dv.skip(i as int)) == dv[i as int]);
            assert(out@ =~= old(out)@ + join_lines(dv.skip(i as int)));
        }
    }
}

/// The lines of `lines` joined by single newline bytes.
pub fn join_with_newlines(lines: &Vec<Vec<u8>>) -> (r: Vec<u8>)
    ensures
        r@ == join_lines(lines.deep_view()),
{
    let mut out: Vec<u8> = Vec::new();
    if lines.len() > 0 {
        join_from(lines, 0, &mut out);
        assert(lines.deep_view().skip(0) =~= lines.deep_view());
        assert(out@ =~= join_lines(lines.deep_view()));
    } else {
        assert(out@ =~= join_lines(lines.deep_view()));
    }
    out
}

} // verus!
