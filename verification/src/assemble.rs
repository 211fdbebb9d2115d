//! Document-assembly helpers used by the surrounding service: building a
//! markdown document out of titled sections with evidence references, the
//! size estimate for the PDF rendering path, and the per-section chunk of
//! the streaming path. Each builder is proved to produce (or measure)
//! exactly the text its specification describes.

use vstd::prelude::*;

use vstd::utf8::encode_utf8;

verus! {

/// One document section: a title, its body, and its evidence references.
pub struct Section {
    pub title: String,
    pub content: String,
    pub evidence_refs: Vec<String>,
}

#[verifier::ext_equal]
pub struct SectionView {
    pub title: Seq<char>,
    pub content: Seq<char>,
    pub evidence_refs: Seq<Seq<char>>,
}

impl View for Section {
    type V = SectionView;

    open spec fn view(&self) -> SectionView {
        SectionView {
            title: self.title@,
            content: self.content@,
            evidence_refs: self.evidence_refs.deep_view(),
        }
    }
}

impl DeepView for Section {
    type V = SectionView;

    open spec fn deep_view(&self) -> SectionView {
        self@
    }
}

/// The assembly request: a document title, its sections, the output format
/// name, and whether the assertion-map table is appended.
pub struct AssemblerContext {
    pub document_title: String,
    pub sections: Vec<Section>,
    pub format: String,
    pub include_assertion_map: bool,
}

#[verifier::ext_equal]
pub struct AssemblerContextView {
    pub document_title: Seq<char>,
    pub sections: Seq<SectionView>,
    pub format: Seq<char>,
    pub include_assertion_map: bool,
}

impl View for AssemblerContext {
    type V = AssemblerContextView;

    open spec fn view(&self) -> AssemblerContextView {
        AssemblerContextView {
            document_title: self.document_title@,
            sections: self.sections.deep_view(),
            format: self.format@,
            include_assertion_map: self.include_assertion_map,
        }
    }
}

/// What an assembly pass reports back.
#[derive(Debug, PartialEq)]
pub struct AssemblerResult {
    pub success: bool,
    pub format: String,
    pub size_bytes: usize,
    pub sections_processed: usize,
}

/// The decimal digit `d` as a character.
pub open spec fn dec_digit(d: nat) -> char {
    if d == 0 {
        '0'
    } else if d == 1 {
        '1'
    } else if d == 2 {
        '2'
    } else if d == 3 {
        '3'
    } else if d == 4 {
        '4'
    } else if d == 5 {
        '5'
    } else if d == 6 {
        '6'
    } else if d == 7 {
        '7'
    } else if d == 8 {
        '8'
    } else {
        '9'
    }
}

/// The usual decimal rendering of `n`, most significant digit first, no
/// leading zeros (a single zero for zero).
pub open spec fn dec_str(n: nat) -> Seq<char>
    decreases n,
{
    if n < 10 {
        seq![dec_digit(n)]
    } else {
        dec_str(n / 10).push(dec_digit(n % 10))
    }
}

fn digit_str(d: usize) -> (r: String)
    requires
        d < 10,
    ensures
        r@ == seq![dec_digit(d as nat)],
{
    let digits = "0123456789";
    proof {
        reveal_strlit("0123456789");
    }
    let r = String::from_str(digits.substring_char(d, d + 1));
    proof {
        assert(r@ =~= seq![dec_digit(d as nat)]);
    }
    r
}

/// Renders `n` in decimal.
pub fn dec_string(n: usize) -> (r: String)
    ensures
        r@ == dec_str(n as nat),
    decreases n,
{
    if n < 10 {
        digit_str(n)
    } else {
        let mut r = dec_string(n / 10);
        let last = digit_str(n % 10);
        r.append(last.as_str());
        proof {
            assert(r@ =~= dec_str((n / 10) as nat).push(dec_digit((n % 10) as nat)));
        }
        r
    }
}

/// One evidence reference, as its markdown bullet line.
pub open spec fn evidence_line(e: Seq<char>) -> Seq<char> {
    "- `"@ + e + "`\n"@
}

/// All evidence references of a section, as consecutive bullet lines.
pub open spec fn evidence_lines(refs: Seq<Seq<char>>) -> Seq<char>
    decreases refs.len(),
{
    if refs.len() == 0 {
        Seq::empty()
    } else {
        evidence_lines(refs.drop_last()) + evidence_line(refs.last())
    }
}

/// The evidence block of a section: nothing without references, otherwise
/// a heading, the bullet lines, and a blank line.
pub open spec fn evidence_block(refs: Seq<Seq<char>>) -> Seq<char> {
    if refs.len() == 0 {
        Seq::empty()
    } else {
        "### Evidence\n"@ + evidence_lines(refs) + "\n"@
    }
}

/// One section rendered to markdown.
pub open spec fn section_md(s: SectionView) -> Seq<char> {
    "## "@ + s.title + "\n\n"@ + s.content + "\n\n"@ + evidence_block(s.evidence_refs)
        + "---\n\n"@
}

/// All sections rendered in order.
pub open spec fn sections_md(ss: Seq<SectionView>) -> Seq<char>
    decreases ss.len(),
{
    if ss.len() == 0 {
        Seq::empty()
    } else {
        sections_md(ss.drop_last()) + section_md(ss.last())
    }
}

/// One row of the assertion-map table: a section title and how many
/// evidence references it carries.
pub open spec fn map_row(s: SectionView) -> Seq<char> {
    "| "@ + s.title + " | "@ + dec_str(s.evidence_refs.len()) + " |\n"@
}

/// All assertion-map rows in section order.
pub open spec fn map_rows(ss: Seq<SectionView>) -> Seq<char>
    decreases ss.len(),
{
    if ss.len() == 0 {
        Seq::empty()
    } else {
        map_rows(ss.drop_last()) + map_row(ss.last())
    }
}

/// The assertion-map table appended on request.
pub open spec fn assertion_map(ss: Seq<SectionView>) -> Seq<char> {
    "## Assertion Map\n\n"@ + "| Section | Evidence Count |\n"@ + "|---------|---------------|\n"@
        + map_rows(ss)
}

/// The complete markdown document for an assembly request.
pub open spec fn markdown_of(c: AssemblerContextView) -> Seq<char> {
    "# "@ + c.document_title + "\n\n"@ + "---\n\n"@ + sections_md(c.sections) + (
    if c.include_assertion_map {
        assertion_map(c.sections)
    } else {
        Seq::empty()
    })
}

/// Assembles the markdown document in memory and reports its exact byte
/// size and the number of sections processed.
pub fn assemble_markdown(ctx: &AssemblerContext) -> (r: AssemblerResult)
    ensures
        r.success == true,
        r.format@ == "markdown"@,
        r.sections_processed == ctx.sections@.len(),
        r.size_bytes == encode_utf8(markdown_of(ctx@)).len() as usize,
{
    let ghost head = "# "@ + ctx@.document_title + "\n\n"@ + "---\n\n"@;
    let mut out = String::new();
    out.append("# ");
    out.append(ctx.document_title.as_str());
    out.append("\n\n");
    out.append("---\n\n");
    let n: usize = ctx.sections.len();
    let mut i: usize = 0;
    while i < n
        invariant
            n == ctx.sections@.len(),
            i <= n,
            ctx@.sections.len() == n,
            out@ == head + sections_md(ctx@.sections.take(i as int)),
            head == "# "@ + ctx@.document_title + "\n\n"@ + "---\n\n"@,
        decreases n - i,
    {
        let ghost pre = out@;
        let sec = &ctx.sections[i];
        proof {
            assert(sec@ == ctx@.sections[i as int]);
        }
        out.append("## ");
        out.append(sec.title.as_str());
        out.append("\n\n");
        out.append(sec.content.as_str());
        out.append("\n\n");
        let m: usize = sec.evidence_refs.len();
        if m > 0 {
            let ghost pre_ev = out@;
            out.append("### Evidence\n");
            let mut j: usize = 0;
            while j < m
                invariant
                    m == sec.evidence_refs@.len(),
                    j <= m,
                    sec@.evidence_refs.len() == m,
                    out@ == pre_ev + "### Evidence\n"@ + evidence_lines(
                        sec@.evidence_refs.take(j as int),
                    ),
                decreases m - j,
            {
                out.append("- `");
                out.append(sec.evidence_refs[j].as_str());
                out.append("`\n");
                j = j + 1;
                proof {
                    assert(sec@.evidence_refs.take(j as int).drop_last() =~= sec@.evidence_refs.take(
                        j - 1,
                    ));
                    assert(sec@.evidence_refs.take(j as int).last() == sec@.evidence_refs[j - 1]);
                    assert(sec@.evidence_refs[j - 1] == sec.evidence_refs@[j - 1]@);
                }
            }
            out.append("\n");
            proof {
                assert(sec@.evidence_refs.take(m as int) =~= sec@.evidence_refs);
                assert(out@ == pre_ev + "### Evidence\n"@ + evidence_lines(sec@.evidence_refs)
                    + "\n"@);
                assert(sec@.evidence_refs.len() > 0);
            }
        }
        out.append("---\n\n");
        i = i + 1;
        proof {
            assert(ctx@.sections.take(i as int).drop_last() =~= ctx@.sections.take(i - 1));
            assert(ctx@.sections.take(i as int).last() == ctx@.sections[i - 1]);
            assert(out@ == pre + section_md(ctx@.sections[i - 1]));
            assert(out@ == head + sections_md(ctx@.sections.take(i as int)));
        }
    }
    proof {
        assert(ctx@.sections.take(n as int) =~= ctx@.sections);
    }
    if ctx.include_assertion_map {
        let ghost pre_map = out@;
        out.append("## Assertion Map\n\n");
        out.append("| Section | Evidence Count |\n");
        out.append("|---------|---------------|\n");
        let mut i2: usize = 0;
        while i2 < n
            invariant
                n == ctx.sections@.len(),
                i2 <= n,
                ctx@.sections.len() == n,
                out@ == pre_map + "## Assertion Map\n\n"@ + "| Section | Evidence Count |\n"@
                    + "|---------|---------------|\n"@ + map_rows(ctx@.sections.take(i2 as int)),
            decreases n - i2,
        {
            let sec = &ctx.sections[i2];
            proof {
                assert(sec@ == ctx@.sections[i2 as int]);
            }
            out.append("| ");
            out.append(sec.title.as_str());
            out.append(" | ");
            let count = dec_string(sec.evidence_refs.len());
            out.append(count.as_str());
            out.append(" |\n");
            i2 = i2 + 1;
            proof {
                assert(ctx@.sections.take(i2 as int).drop_last() =~= ctx@.sections.take(i2 - 1));
                assert(ctx@.sections.take(i2 as int).last() == ctx@.sections[i2 - 1]);
                assert(sec.evidence_refs@.len() == sec@.evidence_refs.len());
                assert(out@ == pre_map + "## Assertion Map\n\n"@ + "| Section | Evidence Count |\n"@
                    + "|---------|---------------|\n"@ + map_rows(ctx@.sections.take(i2 as int)));
            }
        }
        proof {
            assert(ctx@.sections.take(n as int) =~= ctx@.sections);
            assert(out@ == markdown_of(ctx@));
        }
    } else {
        proof {
            assert(out@ =~= markdown_of(ctx@));
        }
    }
    let size: usize = out.as_str().len();
    AssemblerResult {
        success: true,
        format: String::from_str("markdown"),
        size_bytes: size,
        sections_processed: ctx.sections.len(),
    }
}

/// The byte lengths of all section bodies and titles, summed.
pub open spec fn pdf_content_sum(ss: Seq<SectionView>) -> nat
    decreases ss.len(),
{
    if ss.len() == 0 {
        0
    } else {
        pdf_content_sum(ss.drop_last()) + encode_utf8(ss.last().content).len() + encode_utf8(
            ss.last().title,
        ).len()
    }
}

proof fn lemma_pdf_prefix(ss: Seq<SectionView>, i: int)
    requires
        0 <= i <= ss.len(),
    ensures
        pdf_content_sum(ss.take(i)) <= pdf_content_sum(ss),
    decreases ss.len(),
{
    if i == ss.len() {
        assert(ss.take(i) =~= ss);
    } else {
        assert(ss.drop_last().take(i) =~= ss.take(i));
        lemma_pdf_prefix(ss.drop_last(), i);
    }
}

/// Estimates the PDF size as twice the summed byte lengths of the section
/// bodies and titles, and reports it without rendering.
pub fn assemble_pdf(ctx: &AssemblerContext) -> (r: AssemblerResult)
    requires
        2 * pdf_content_sum(ctx@.sections) <= usize::MAX,
    ensures
        r.success == true,
        r.format@ == "pdf"@,
        r.sections_processed == ctx.sections@.len(),
        r.size_bytes == 2 * pdf_content_sum(ctx@.sections),
{
    let n: usize = ctx.sections.len();
    let mut acc: usize = 0;
    let mut i: usize = 0;
    while i < n
        invariant
            n == ctx.sections@.len(),
            i <= n,
            ctx@.sections.len() == n,
            acc == pdf_content_sum(ctx@.sections.take(i as int)),
            2 * pdf_content_sum(ctx@.sections) <= usize::MAX,
        decreases n - i,
    {
        let sec = &ctx.sections[i];
        proof {
            assert(sec@ == ctx@.sections[i as int]);
            assert(ctx@.sections.take(i + 1).drop_last() =~= ctx@.sections.take(i as int));
            assert(ctx@.sections.take(i + 1).last() == ctx@.sections[i as int]);
            lemma_pdf_prefix(ctx@.sections, i + 1);
        }
        acc = acc + sec.content.as_str().len();
        acc = acc + sec.title.as_str().len();
        i = i + 1;
    }
    proof {
        assert(ctx@.sections.take(n as int) =~= ctx@.sections);
    }
    let size: usize = acc * 2;
    AssemblerResult {
        success: true,
        format: String::from_str("pdf"),
        size_bytes: size,
        sections_processed: ctx.sections.len(),
    }
}

/// The chunk the streaming path emits for one section.
pub open spec fn stream_chunk_of(s: SectionView) -> Seq<char> {
    "## "@ + s.title + "\n\n"@ + s.content + "\n\n---\n\n"@
}

/// Renders the streaming chunk for one section.
pub fn stream_chunk(section: &Section) -> (r: String)
    ensures
        r@ == stream_chunk_of(section@),
{
    let mut out = String::new();
    out.append("## ");
    out.append(section.title.as_str());
    out.append("\n\n");
    out.append(section.content.as_str());
    out.append("\n\n---\n\n");
    out
}

} // verus!
