//! Header synthesis: substituting the year and file-name tokens into the
//! raw license template lines, then wrapping the substituted lines in the
//! comment syntax of the file's type.

use vstd::prelude::*;
use crate::style::CommentStyle;
use crate::style::FiletypeRule;
use crate::style::StyleModel;
use crate::text::dec_digits;
use crate::text::join_lines;
use crate::text::replace_all;
use crate::text::replace_all_bytes;
use crate::text::u32_decimal;

verus! {

broadcast use crate::text::lemma_bytes_deep_view;

/// The token `{{year}}` as bytes.
pub open spec fn year_token() -> Seq<u8> {
    seq![123u8, 123u8, 121u8, 101u8, 97u8, 114u8, 125u8, 125u8]
}

/// The token `{{file}}` as bytes.
pub open spec fn file_token() -> Seq<u8> {
    seq![123u8, 123u8, 102u8, 105u8, 108u8, 101u8, 125u8, 125u8]
}

fn year_token_vec() -> (r: Vec<u8>)
    ensures
        r@ == year_token(),
{
    let mut v: Vec<u8> = Vec::new();
    v.push(123);
    v.push(123);
    v.push(121);
    v.push(101);
    v.push(97);
    v.push(114);
    v.push(125);
    v.push(125);
    assert(v@ =~= year_token());
    v
}

fn file_token_vec() -> (r: Vec<u8>)
    ensures
        r@ == file_token(),
{
    let mut v: Vec<u8> = Vec::new();
    v.push(123);
    v.push(123);
    v.push(102);
    v.push(105);
    v.push(108);
    v.push(101);
    v.push(125);
    v.push(125);
    assert(v@ =~= file_token());
    v
}

/// One template line with every file-name token replaced by the file's
/// name, and then every year token replaced by the year's decimal digits.
pub open spec fn fill_line(line: Seq<u8>, name: Seq<u8>, year: u32) -> Seq<u8> {
    replace_all(replace_all(line, file_token(), name), year_token(), dec_digits(year as nat))
}

/// The substituted lines wrapped in the comment syntax of one file type:
/// a line style prefixes every line, a block style puts the open delimiter
/// on its own line before them and the close delimiter on its own line
/// after them.
pub open spec fn wrap_lines(lines: Seq<Seq<u8>>, style: StyleModel) -> Seq<Seq<u8>> {
    match style {
        StyleModel::Line(prefix) => lines.map_values(|l: Seq<u8>| prefix + l),
        StyleModel::Block(opener, closer) => seq![opener] + lines + seq![closer],
    }
}

/// The exact header lines for one file: the template substituted, then
/// wrapped.
pub open spec fn rendered_lines(
    tpl: Seq<Seq<u8>>,
    name: Seq<u8>,
    year: u32,
    style: StyleModel,
) -> Seq<Seq<u8>> {
    wrap_lines(tpl.map_values(|l: Seq<u8>| fill_line(l, name, year)), style)
}

/// The exact header text for one file: the header lines joined by single
/// newline bytes.
pub open spec fn rendered_header(
    tpl: Seq<Seq<u8>>,
    name: Seq<u8>,
    year: u32,
    style: StyleModel,
) -> Seq<u8> {
    join_lines(rendered_lines(tpl, name, year, style))
}

fn fill_line_exec(line: &Vec<u8>, name: &Vec<u8>, digits: &Vec<u8>, year: u32) -> (r: Vec<u8>)
    requires
        digits@ == dec_digits(year as nat),
    ensures
        r@ == fill_line(line@, name@, year),
{
    let ft = file_token_vec();
    let yt = year_token_vec();
    let with_name = replace_all_bytes(line, &ft, name);
    replace_all_bytes(&with_name, &yt, digits)
}

/// The header lines for one file, produced from the raw template lines,
/// the file's name, the year, and the file type's rule. Disabled rules are
/// never used to synthesize a header.
pub fn synthesize(
    template: &Vec<Vec<u8>>,
    file_name: &Vec<u8>,
    year: u32,
    rule: &FiletypeRule,
) -> (r: Vec<Vec<u8>>)
    requires
        rule@.enabled,
    ensures
        r.deep_view() == rendered_lines(template.deep_view(), file_name@, year, rule@.style),
{
    let ghost tdv = template.deep_view();
    let digits = u32_decimal(year);
    let mut filled: Vec<Vec<u8>> = Vec::new();
    let n = template.len();
    let mut i: usize = 0;
    while i < n
        invariant
            i <= n,
            n == template@.len(),
            tdv == template.deep_view(),
            digits@ == dec_digits(year as nat),
            filled.deep_view().len() == i,
            forall|k: int|
                0 <= k < i ==> filled.deep_view()[k] == fill_line(tdv[k], file_name@, year),
        decreases n - i,
    {
        assert(tdv[i as int] == template@[i as int]@);
        let f = fill_line_exec(&template[i], file_name, &digits, year);
        let ghost prev = filled@;
        let ghost pre_dv = filled.deep_view();
        filled.push(f);
        proof {
            assert forall|k: int|
                0 <= k < i + 1 implies filled.deep_view()[k] == fill_line(
                tdv[k],
                file_name@,
                year,
            ) by {
                assert(filled.deep_view()[k] == filled@[k]@);
                if k < i {
                    assert(pre_dv[k] == fill_line(tdv[k], file_name@, year));
                    assert(pre_dv[k] == prev[k]@);
                    assert(filled@[k] == prev[k]);
                } else {
                    assert(filled@[k] == f);
                }
            }
        }
        i += 1;
    }
    let ghost fdv = filled.deep_view();
    proof {
        assert(fdv =~= tdv.map_values(|l: Seq<u8>| fill_line(l, file_name@, year)));
    }
    match &rule.style {
        CommentStyle::LinePrefix { prefix } => {
            let mut out: Vec<Vec<u8>> = Vec::new();
            let mut j: usize = 0;
            while j < n
                invariant
                    j <= n,
                    n == filled@.len(),
                    fdv == filled.deep_view(),
                    out.deep_view().len() == j,
                    forall|k: int| 0 <= k < j ==> out.deep_view()[k] == prefix@ + fdv[k],
                decreases n - j,
            {
                assert(fdv[j as int] == filled@[j as int]@);
                let line = crate::text::concat_bytes(prefix, &filled[j]);
                let ghost prev = out@;
                let ghost pre_dv = out.deep_view();
                out.push(line);
                proof {
                    assert forall|k: int|
                        0 <= k < j + 1 implies out.deep_view()[k] == prefix@ + fdv[k] by {
                        assert(out.deep_view()[k] == out@[k]@);
                        if k < j {
                            assert(pre_dv[k] == prefix@ + fdv[k]);
                            assert(pre_dv[k] == prev[k]@);
                            assert(out@[k] == prev[k]);
                        } else {
                            assert(out@[k] == line);
                        }
                    }
                }
                j += 1;
            }
            proof {
                assert(out.deep_view() =~= fdv.map_values(|l: Seq<u8>| prefix@ + l));
            }
            out
        },
        CommentStyle::BlockDelimiters { opener, closer } => {
            let mut out: Vec<Vec<u8>> = Vec::new();
            out.push(crate::text::bytes_copy(opener));
            assert(out.deep_view()[0] == out@[0]@);
            let mut j: usize = 0;
            while j < n
                invariant
                    j <= n,
                    n == filled@.len(),
                    fdv == filled.deep_view(),
                    out.deep_view().len() == j + 1,
                    out.deep_view()[0] == opener@,
                    forall|k: int| 0 <= k < j ==> out.deep_view()[k + 1] == fdv[k],
                decreases n - j,
            {
                assert(fdv[j as int] == filled@[j as int]@);
                let line = crate::text::bytes_copy(&filled[j]);
                let ghost prev = out@;
                let ghost pre_dv = out.deep_view();
                out.push(line);
                proof {
                    assert(out.deep_view()[0] == out@[0]@);
                    assert(pre_dv[0] == prev[0]@);
                    assert(out@[0] == prev[0]);
                    assert forall|k: int|
                        0 <= k < j + 1 implies out.deep_view()[k + 1] == fdv[k] by {
                        assert(out.deep_view()[k + 1] == out@[k + 1]@);
                        if k < j {
                            assert(pre_dv[k + 1] == fdv[k]);
                            assert(pre_dv[k + 1] == prev[k + 1]@);
                            assert(out@[k + 1] == prev[k + 1]);
                        } else {
                            assert(out@[k + 1] == line);
                        }
                    }
                }
                j += 1;
            }
            let ghost prev = out@;
            let ghost pre_dv = out.deep_view();
            out.push(crate::text::bytes_copy(closer));
            proof {
                assert(out.deep_view()[0] == out@[0]@);
                assert(pre_dv[0] == prev[0]@);
                assert(out@[0] == prev[0]);
                assert forall|k: int| 0 <= k < n implies out.deep_view()[k + 1] == fdv[k] by {
                    assert(out.deep_view()[k + 1] == out@[k + 1]@);
                    assert(pre_dv[k + 1] == fdv[k]);
                    assert(pre_dv[k + 1] == prev[k + 1]@);
                    assert(out@[k + 1] == prev[k + 1]);
                }
                assert(out.deep_view()[n + 1] == out@[n + 1]@);
                assert(out.deep_view() =~= seq![opener@] + fdv + seq![closer@]);
            }
            out
        },
    }
}

/// Synthesis is deterministic: identical template, file name, year and
/// style always render identical header lines. The executable `synthesize`
/// is pinned to `rendered_lines`, so any two of its calls on equal inputs
/// agree.
pub proof fn lemma_synthesis_deterministic(
    tpl1: Seq<Seq<u8>>,
    name1: Seq<u8>,
    year1: u32,
    style1: StyleModel,
    tpl2: Seq<Seq<u8>>,
    name2: Seq<u8>,
    year2: u32,
    style2: StyleModel,
)
    requires
        tpl1 == tpl2,
        name1 == name2,
        year1 == year2,
        style1 == style2,
    ensures
        rendered_lines(tpl1, name1, year1, style1) == rendered_lines(tpl2, name2, year2, style2),
        rendered_header(tpl1, name1, year1, style1) == rendered_header(tpl2, name2, year2, style2),
{
}

} // verus!
