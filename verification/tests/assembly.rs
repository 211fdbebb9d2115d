use stream_assembler::assemble::{
    assemble_markdown, assemble_pdf, dec_string, stream_chunk, AssemblerContext, Section,
};
use stream_assembler::request::{collect_axioms, PinField, PinNode};
use stream_assembler::routing::{smart_route, SmartRouteRequest};

fn section(title: &str, content: &str, refs: &[&str]) -> Section {
    Section {
        title: title.to_string(),
        content: content.to_string(),
        evidence_refs: refs.iter().map(|r| r.to_string()).collect(),
    }
}

/// The markdown text the assembler is specified to build, written out the
/// straightforward way for comparison.
fn expected_markdown(ctx: &AssemblerContext) -> String {
    let mut out = String::new();
    out.push_str(&format!("# {}\n\n", ctx.document_title));
    out.push_str("---\n\n");
    for s in &ctx.sections {
        out.push_str(&format!("## {}\n\n", s.title));
        out.push_str(&format!("{}\n\n", s.content));
        if !s.evidence_refs.is_empty() {
            out.push_str("### Evidence\n");
            for r in &s.evidence_refs {
                out.push_str(&format!("- `{}`\n", r));
            }
            out.push_str("\n");
        }
        out.push_str("---\n\n");
    }
    if ctx.include_assertion_map {
        out.push_str("## Assertion Map\n\n");
        out.push_str("| Section | Evidence Count |\n");
        out.push_str("|---------|---------------|\n");
        for s in &ctx.sections {
            out.push_str(&format!("| {} | {} |\n", s.title, s.evidence_refs.len()));
        }
    }
    out
}

#[test]
fn markdown_reports_exact_byte_size() {
    let ctx = AssemblerContext {
        document_title: "Doc".to_string(),
        sections: vec![
            section("S1", "Hello", &["e1", "e2"]),
            section("S2", "World", &[]),
        ],
        format: "markdown".to_string(),
        include_assertion_map: true,
    };
    let r = assemble_markdown(&ctx);
    assert!(r.success);
    assert_eq!(r.format, "markdown");
    assert_eq!(r.sections_processed, 2);
    assert_eq!(r.size_bytes, expected_markdown(&ctx).len());
}

#[test]
fn markdown_without_assertion_map() {
    let ctx = AssemblerContext {
        document_title: "T".to_string(),
        sections: vec![section("A", "B", &[])],
        format: "markdown".to_string(),
        include_assertion_map: false,
    };
    let r = assemble_markdown(&ctx);
    assert_eq!(r.size_bytes, expected_markdown(&ctx).len());
    assert_eq!(r.sections_processed, 1);
}

#[test]
fn markdown_counts_bytes_not_characters() {
    let ctx = AssemblerContext {
        document_title: "caf\u{e9}".to_string(),
        sections: Vec::new(),
        format: "markdown".to_string(),
        include_assertion_map: false,
    };
    let r = assemble_markdown(&ctx);
    // "# café\n\n---\n\n" holds one two-byte character.
    assert_eq!(r.size_bytes, "# caf\u{e9}\n\n---\n\n".len());
}

#[test]
fn markdown_empty_document() {
    let ctx = AssemblerContext {
        document_title: String::new(),
        sections: Vec::new(),
        format: "markdown".to_string(),
        include_assertion_map: false,
    };
    let r = assemble_markdown(&ctx);
    assert_eq!(r.size_bytes, "# \n\n---\n\n".len());
    assert_eq!(r.sections_processed, 0);
}

#[test]
fn assertion_map_renders_double_digit_counts() {
    let refs: Vec<String> = (0..12).map(|i| format!("ref{}", i)).collect();
    let ref_strs: Vec<&str> = refs.iter().map(|s| s.as_str()).collect();
    let ctx = AssemblerContext {
        document_title: "D".to_string(),
        sections: vec![section("Wide", "c", &ref_strs)],
        format: "markdown".to_string(),
        include_assertion_map: true,
    };
    let r = assemble_markdown(&ctx);
    let expected = expected_markdown(&ctx);
    assert!(expected.contains("| Wide | 12 |\n"));
    assert_eq!(r.size_bytes, expected.len());
}

#[test]
fn decimal_rendering_matches_std() {
    for n in [0usize, 7, 10, 99, 100, 12345, 100000] {
        assert_eq!(dec_string(n), n.to_string());
    }
}

#[test]
fn pdf_estimate_doubles_title_and_content_bytes() {
    let ctx = AssemblerContext {
        document_title: "ignored".to_string(),
        sections: vec![section("ab", "cdef", &["unused"])],
        format: "pdf".to_string(),
        include_assertion_map: false,
    };
    let r = assemble_pdf(&ctx);
    assert!(r.success);
    assert_eq!(r.format, "pdf");
    assert_eq!(r.sections_processed, 1);
    assert_eq!(r.size_bytes, (2 + 4) * 2);
}

#[test]
fn pdf_estimate_counts_bytes_of_multibyte_text() {
    let ctx = AssemblerContext {
        document_title: String::new(),
        sections: vec![section("\u{e9}", "", &[])],
        format: "pdf".to_string(),
        include_assertion_map: false,
    };
    let r = assemble_pdf(&ctx);
    assert_eq!(r.size_bytes, 2 * 2);
}

#[test]
fn pdf_estimate_empty() {
    let ctx = AssemblerContext {
        document_title: "t".to_string(),
        sections: Vec::new(),
        format: "pdf".to_string(),
        include_assertion_map: false,
    };
    assert_eq!(assemble_pdf(&ctx).size_bytes, 0);
}

#[test]
fn stream_chunk_formats_one_section() {
    let s = section("T", "C", &[]);
    assert_eq!(stream_chunk(&s), "## T\n\nC\n\n---\n\n");
}

#[test]
fn route_defaults_to_local() {
    let r = smart_route(&SmartRouteRequest {
        task_type: "verify".to_string(),
        input_tokens: 100,
        complexity: "LOW".to_string(),
        require_high_quality: false,
    });
    assert!(r.use_local);
    assert_eq!(r.recommended_model, "phi3:mini");
    assert_eq!(r.reasoning, "Defaulting to local for cost savings");
}

#[test]
fn route_high_complexity_goes_to_cloud() {
    let r = smart_route(&SmartRouteRequest {
        task_type: "verify".to_string(),
        input_tokens: 100,
        complexity: "HIGH".to_string(),
        require_high_quality: false,
    });
    assert!(!r.use_local);
    assert_eq!(r.recommended_model, "gpt-4o");
    assert_eq!(
        r.reasoning,
        "High complexity or quality requirement - routing to cloud"
    );
}

#[test]
fn route_quality_requirement_goes_to_cloud() {
    let r = smart_route(&SmartRouteRequest {
        task_type: "verify".to_string(),
        input_tokens: 5,
        complexity: "LOW".to_string(),
        require_high_quality: true,
    });
    assert!(!r.use_local);
}

#[test]
fn route_complexity_match_is_exact() {
    let r = smart_route(&SmartRouteRequest {
        task_type: "verify".to_string(),
        input_tokens: 5,
        complexity: "high".to_string(),
        require_high_quality: false,
    });
    assert!(r.use_local);
}

#[test]
fn pins_prefer_content_over_statement() {
    let nodes = vec![PinNode {
        content: PinField::Text("from content".to_string()),
        statement: PinField::Text("from statement".to_string()),
    }];
    assert_eq!(collect_axioms(&nodes), vec!["from content".to_string()]);
}

#[test]
fn pins_fall_back_to_statement_when_content_missing() {
    let nodes = vec![PinNode {
        content: PinField::Absent,
        statement: PinField::Text("fallback".to_string()),
    }];
    assert_eq!(collect_axioms(&nodes), vec!["fallback".to_string()]);
}

#[test]
fn pins_with_non_string_content_yield_nothing() {
    // A present but non-string `content` shadows the statement and reads
    // as empty, so the node contributes nothing.
    let nodes = vec![PinNode {
        content: PinField::NotText,
        statement: PinField::Text("unreachable".to_string()),
    }];
    assert_eq!(collect_axioms(&nodes), Vec::<String>::new());
}

#[test]
fn pins_drop_empty_and_keep_order() {
    let nodes = vec![
        PinNode {
            content: PinField::Text("first".to_string()),
            statement: PinField::Absent,
        },
        PinNode {
            content: PinField::Text(String::new()),
            statement: PinField::Absent,
        },
        PinNode {
            content: PinField::Absent,
            statement: PinField::Text("second".to_string()),
        },
    ];
    assert_eq!(
        collect_axioms(&nodes),
        vec!["first".to_string(), "second".to_string()]
    );
}
