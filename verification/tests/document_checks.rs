use kota::claims::{CandidateClaim, ConfidenceGrade};
use kota::document::{summarize, DiagnosticSeverity, DocumentVerifier, TexFile};
use kota::sources::{bib_target, input_targets};
use kota::table::{bolding_diagnostic, table_columns};

#[test]
fn test_voxel_hygiene_markdown_detection() {
    let bad_tex = r"
        \begin{abstract}
        *Phytophthora infestans* is a dangerous pathogen.
        **A-Block** accelerates sampling.
        ## New Section
        \end{abstract}
        ";

    let diagnostics = DocumentVerifier::voxel_hygiene(bad_tex);
    assert_eq!(diagnostics.len(), 3);
    assert!(diagnostics
        .iter()
        .any(|d| d.message.contains("Phytophthora infestans")));
    assert!(diagnostics.iter().any(|d| d.message.contains("A-Block")));
    assert!(diagnostics
        .iter()
        .any(|d| d.message.contains("Markdown header")));
}

#[test]
fn test_voxel_hygiene_clean_tex() {
    let clean_tex = r"
        \begin{abstract}
        \textit{Phytophthora infestans} is a dangerous pathogen.
        \textbf{A-Block} accelerates sampling.
        \section{New Section}
        \end{abstract}
        ";

    let diagnostics = DocumentVerifier::voxel_hygiene(clean_tex);
    assert_eq!(diagnostics.len(), 0);
}

#[test]
fn hygiene_messages_and_lines() {
    let tex = "intro\n**bold** text\n  ### Title\nsee *x* and *y*\n";
    let d = DocumentVerifier::voxel_hygiene(tex);
    assert_eq!(d.len(), 3);
    assert_eq!(d[0].line, 2);
    assert_eq!(d[0].message, "Raw Markdown bold '**bold**' detected.");
    assert_eq!(d[0].suggestion.as_deref(), Some("Replace with '\\textbf{bold}'."));
    assert_eq!(d[1].line, 3);
    assert_eq!(d[1].snippet.as_deref(), Some("### Title"));
    assert_eq!(d[1].suggestion.as_deref(), Some("Use \\section{...} or \\subsection{...} instead."));
    assert_eq!(d[2].line, 4);
    assert_eq!(
        d[2].message,
        "Raw Markdown italic '*x*' detected (will compile as literal asterisks)."
    );
    assert!(d.iter().all(|x| x.voxel == "VoxelHygiene" && x.severity == DiagnosticSeverity::Error));
}

#[test]
fn hygiene_skips_outside_body_verbatim_and_math() {
    let tex = "**preamble**\n\\begin{document}\n% **comment**\n\\begin{verbatim}\n**code**\n\\end{verbatim}\n*$x$* and \\*y*\n####### seven\n\\end{document}\n**after**\n";
    let d = DocumentVerifier::voxel_hygiene(tex);
    assert_eq!(d.len(), 0);
}

#[test]
fn hygiene_single_word_italic() {
    let d = DocumentVerifier::voxel_hygiene("*a* b");
    assert_eq!(d.len(), 1);
    assert!(d[0].message.contains("'*a*'"));
}

#[test]
fn test_voxel_bib_matching() {
    let tex = r"
        We build on \citep{adamala2026} and \cite{chan2019}.
        Also see \cite{missing_paper}.
        ";

    let bib = r"
        @article{adamala2026,
            title={Synthetic Cells},
            author={Adamala, K},
            year={2026}
        }
        @article{chan2019,
            title={Lenia},
            author={Chan, B},
            year={2019}
        }
        @article{unused_paper,
            title={Unused},
            author={Smith, J},
            year={2020}
        }
        ";

    let diagnostics = DocumentVerifier::voxel_bib(tex, bib);
    let errors: Vec<_> = diagnostics
        .iter()
        .filter(|d| d.severity == DiagnosticSeverity::Error)
        .collect();
    let infos: Vec<_> = diagnostics
        .iter()
        .filter(|d| d.severity == DiagnosticSeverity::Info)
        .collect();

    assert_eq!(errors.len(), 1);
    assert!(errors[0].message.contains("missing_paper"));

    assert_eq!(infos.len(), 1);
    assert!(infos[0].message.contains("unused_paper"));
}

#[test]
fn bib_messages_exact() {
    let d = DocumentVerifier::voxel_bib("\\cite{a, b}\n% \\cite{c}\n", "@book{b,\n}\n@misc{ z }");
    assert_eq!(d.len(), 2);
    assert_eq!(
        d[0].message,
        "Citation key '\\cite{a}' is missing from the bibliography (.bib)."
    );
    assert_eq!(d[0].suggestion.as_deref(), Some("Add '@article{a, ...}' to your bibliography file."));
    assert_eq!(
        d[1].message,
        "Bibliography entry 'z' is defined in .bib but never cited in the document."
    );
    let s = summarize(&d);
    assert_eq!((s.errors, s.warnings, s.infos), (1, 0, 1));
}

#[test]
fn test_voxel_ref_duplicate_and_unresolved() {
    let tex = r"
        \section{Introduction}\label{sec:intro}
        We show in Eq.~\eqref{eq:missing} and Eq.~\eqref{eq:one} our method.
        \begin{equation}\label{eq:one}
        y = x
        \end{equation}
        \begin{equation}\label{eq:one}
        z = 2x
        \end{equation}
        \begin{equation}\label{eq:orphan}
        w = 3x
        \end{equation}
        See Section~\ref{sec:intro}.
        ";

    let diagnostics = DocumentVerifier::voxel_ref("dummy.tex", tex, Vec::new());
    let errors: Vec<_> = diagnostics
        .iter()
        .filter(|d| d.severity == DiagnosticSeverity::Error)
        .collect();
    let infos: Vec<_> = diagnostics
        .iter()
        .filter(|d| d.severity == DiagnosticSeverity::Info)
        .collect();

    // Should have 2 errors: 1 duplicate label (eq:one), 1 unresolved ref (eq:missing)
    assert_eq!(errors.len(), 2);
    assert!(errors
        .iter()
        .any(|d| d.message.contains("Duplicate label") && d.message.contains("eq:one")));
    assert!(errors
        .iter()
        .any(|d| d.message.contains("Unresolved cross-reference")
            && d.message.contains("eq:missing")));

    // Should have 1 info: orphaned label eq:orphan
    assert_eq!(infos.len(), 1);
    assert!(infos[0].message.contains("eq:orphan"));
}

#[test]
fn test_voxel_ref_clean() {
    let tex = r"
        \section{Introduction}\label{sec:intro}
        As shown in Section~\ref{sec:intro} and Eq.~\eqref{eq:one}.
        \begin{equation}\label{eq:one}
        y = x
        \end{equation}
        ";

    let diagnostics = DocumentVerifier::voxel_ref("dummy.tex", tex, Vec::new());
    let errors: Vec<_> = diagnostics
        .iter()
        .filter(|d| d.severity == DiagnosticSeverity::Error)
        .collect();
    assert_eq!(errors.len(), 0);
}

#[test]
fn ref_across_included_files() {
    let main = "\\input{sec}\nSee \\ref{s:one}.\n";
    let sec = TexFile { name: "sec.tex".to_string(), content: "x\n\\label{s:one}\n\\label{s:one}\n".to_string() };
    let d = DocumentVerifier::voxel_ref("main.tex", main, vec![sec]);
    assert_eq!(d.len(), 1);
    assert_eq!(
        d[0].message,
        "Duplicate label '\\label{s:one}' defined in sec.tex at line 3 (previously defined in sec.tex at line 2)."
    );
    assert_eq!(d[0].line, 3);
}

#[test]
fn include_and_bib_targets() {
    let t = input_targets("paper", "\\input{intro}\n% \\input{skip}\n\\include{ a.tex }\\input{b}\n");
    assert_eq!(t, vec!["paper/intro.tex", "paper/a.tex", "paper/b.tex"]);
    assert_eq!(bib_target("", "x \\bibliography{refs} \\bibliography{other}").as_deref(), Some("refs.bib"));
    assert_eq!(bib_target("d/", "\\bibliography{ lib.bib }").as_deref(), Some("d/lib.bib"));
    assert_eq!(bib_target("d", "no bibliography"), None);
}

#[test]
fn table_columns_read_directions_and_bold() {
    let table_with_cheat = r"
        \begin{tabular}{lcc}
        \toprule
        Method & Loss $\downarrow$ & Acc $\uparrow$ \\
        \midrule
        Baseline & 0.05 & 80.0 \\
        Proposed & \textbf{0.12} & \textbf{95.0} \\
        \bottomrule
        \end{tabular}
        ";
    let cols = table_columns(table_with_cheat);
    assert_eq!(cols.len(), 2);
    assert_eq!(cols[0].index, 1);
    assert!(cols[0].minimize);
    assert_eq!(cols[1].index, 2);
    assert!(!cols[1].minimize);
    let loss: Vec<(&str, bool)> = cols[0].cells.iter().map(|c| (c.number.as_str(), c.bold)).collect();
    assert_eq!(loss, vec![("0.05", false), ("0.12", true)]);
    let acc: Vec<(&str, bool)> = cols[1].cells.iter().map(|c| (c.number.as_str(), c.bold)).collect();
    assert_eq!(acc, vec![("80.0", false), ("95.0", true)]);
    assert_eq!(cols[0].cells[1].text, "\\textbf{0.12}");
}

#[test]
fn table_numbers_signs_and_missing() {
    let t = "\\begin{tabular} {c}\nx ↓ & y\nrow & -.5e3\nrow & none\n\\hline\nrow & +7\n\\end{tabular}";
    let cols = table_columns(t);
    assert_eq!(cols.len(), 1);
    assert_eq!(cols[0].index, 0);
    let nums: Vec<&str> = cols[0].cells.iter().map(|c| c.number.as_str()).collect();
    assert!(nums.is_empty());
    let t2 = "\\begin{tabular}{c}\nA & B $\\uparrow$\nr & -.5 \\\\\nr & x+7.25y\n\\end{tabular}";
    let cols2 = table_columns(t2);
    let nums2: Vec<&str> = cols2[0].cells.iter().map(|c| c.number.as_str()).collect();
    assert_eq!(nums2, vec!["-.5", "+7.25"]);
}

/// The bolding findings of a document: the library reads the columns and
/// words the message; the optimum of each column is taken in `f64`, within
/// 1e-5, and printed with four decimals, as the command-line program does.
fn bolding_findings(tex: &str) -> Vec<kota::document::Diagnostic> {
    let mut out = Vec::new();
    for col in table_columns(tex) {
        let entries: Vec<(f64, bool, String)> = col
            .cells
            .iter()
            .filter_map(|c| c.number.parse::<f64>().ok().map(|v| (v, c.bold, c.text.clone())))
            .collect();
        if entries.is_empty() {
            continue;
        }
        let optimum = if col.minimize {
            entries.iter().map(|e| e.0).fold(f64::INFINITY, f64::min)
        } else {
            entries.iter().map(|e| e.0).fold(f64::NEG_INFINITY, f64::max)
        };
        for (v, bold, text) in &entries {
            if *bold && (v - optimum).abs() >= 1e-5 {
                out.push(bolding_diagnostic(text, col.minimize, &format!("{:.4}", optimum)));
            }
        }
    }
    out
}

#[test]
fn test_voxel_table_deceptive_bolding() {
    let table_with_cheat = r"
        \begin{tabular}{lcc}
        \toprule
        Method & Loss $\downarrow$ & Acc $\uparrow$ \\
        \midrule
        Baseline & 0.05 & 80.0 \\
        Proposed & \textbf{0.12} & \textbf{95.0} \\
        \bottomrule
        \end{tabular}
        ";

    let diagnostics = bolding_findings(table_with_cheat);
    assert_eq!(diagnostics.len(), 1);
    assert!(diagnostics[0].message.contains("Deceptive/misleading bolding"));
    assert!(diagnostics[0].message.contains("0.12"));
}

#[test]
fn test_voxel_table_honest_bolding() {
    let table_honest = r"
        \begin{tabular}{lcc}
        \toprule
        Method & Loss $\downarrow$ & Acc $\uparrow$ \\
        \midrule
        Baseline & \textbf{0.05} & 80.0 \\
        Proposed & 0.12 & \textbf{95.0} \\
        \bottomrule
        \end{tabular}
        ";

    let diagnostics = bolding_findings(table_honest);
    assert_eq!(diagnostics.len(), 0);
}

#[test]
fn bolding_message() {
    let d = bolding_diagnostic("\\textbf{0.12}", true, "0.0500");
    assert_eq!(
        d.message,
        "Deceptive/misleading bolding in Table: value '\\textbf{0.12}' is bolded as optimal under minimization (↓), but actual optimum is '0.0500'."
    );
    assert_eq!(d.voxel, "VoxelTable");
    assert_eq!(d.line, 0);
}

#[test]
fn test_heuristic_claim_evaluation() {
    let superlative_cand = CandidateClaim {
        line: 10,
        passage:
            "Our model delivers unprecedented state-of-the-art results over all competitors."
                .to_string(),
        claim_type: "Quantitative / Empirical".to_string(),
    };
    let (score, _, _, _) = DocumentVerifier::heuristic_claim_evaluation(&superlative_cand, "");
    // Scores are in hundredths: 40 is a confidence of 0.40.
    assert!(score < 40);
    assert_eq!(ConfidenceGrade::from_score(score), ConfidenceGrade::Fragile);

    let grounded_cand = CandidateClaim {
        line: 20,
        passage: "As shown in Table~\\ref{tab:ostrom}, our method achieves 95% accuracy."
            .to_string(),
        claim_type: "Quantitative / Empirical".to_string(),
    };
    let (score2, _, _, _) = DocumentVerifier::heuristic_claim_evaluation(&grounded_cand, "");
    assert!(score2 >= 85);
    assert_eq!(ConfidenceGrade::from_score(score2), ConfidenceGrade::High);
}

#[test]
fn heuristic_other_grades() {
    let c = |p: &str, k: &str| CandidateClaim { line: 1, passage: p.to_string(), claim_type: k.to_string() };
    let (s, r, e, g) = DocumentVerifier::heuristic_claim_evaluation(&c("As \\cite{x} found, 12 cells.", "Q"), "");
    assert_eq!(s, 85);
    assert!(r.starts_with("Supported quantitative claim"));
    assert_eq!(e.as_deref(), Some("External citation and quantitative data verified."));
    assert!(g.is_none());
    assert_eq!(DocumentVerifier::heuristic_claim_evaluation(&c("Let x be a set.", "Formal lemma"), "").0, 80);
    assert_eq!(DocumentVerifier::heuristic_claim_evaluation(&c("See \\cite{y}.", "Q"), "").0, 75);
    assert_eq!(DocumentVerifier::heuristic_claim_evaluation(&c("It works.", "Q"), "").0, 55);
    assert_eq!(ConfidenceGrade::from_score(55), ConfidenceGrade::Low);
    assert_eq!(ConfidenceGrade::from_score(65), ConfidenceGrade::Moderate);
    assert_eq!(ConfidenceGrade::from_score(39), ConfidenceGrade::Fragile);
}

#[test]
fn candidate_claims_from_abstract_theorems_and_lines() {
    let tex = "\\begin{abstract}\nWe study a long and careful question about cells here. Short one.\n\\end{abstract}\n\\begin{theorem}\nEvery bounded monotone sequence converges.\n\\end{theorem}\n\\noindent We propose a method that outperforms all baselines today.\n% We propose a commented line that outperforms baselines.\nPlain line without any strong wording at all in it.\n";
    let c = DocumentVerifier::extract_candidate_claims(tex, 10);
    assert_eq!(c.len(), 3);
    assert_eq!(c[0].passage, "We study a long and careful question about cells here");
    assert_eq!(c[0].claim_type, "Abstract / Core Thesis");
    assert_eq!(c[0].line, 1);
    assert_eq!(c[1].passage, "Every bounded monotone sequence converges.");
    assert_eq!(c[1].claim_type, "Formal theorem");
    assert_eq!(c[2].passage, "We propose a method that outperforms all baselines today.");
    assert_eq!(c[2].claim_type, "Key Contribution");
    assert_eq!(c[2].line, 7);
    let none = DocumentVerifier::extract_candidate_claims(tex, 0);
    assert!(none.is_empty());
    let two = DocumentVerifier::extract_candidate_claims(tex, 2);
    assert_eq!(two.len(), 2);
    assert_eq!(two[1].passage, "Every bounded monotone sequence converges.");
}

#[test]
fn candidate_claims_with_given_strong_lines() {
    let tex = "first line is long enough to be a claim here\nsecond line is long enough to be a claim too\n";
    let c = DocumentVerifier::candidates_with_strong_lines(tex, 5, &vec![false, true]);
    assert_eq!(c.len(), 1);
    assert_eq!(c[0].line, 2);
    assert_eq!(c[0].claim_type, "Quantitative / Empirical");
}

#[test]
fn document_context_lists() {
    let tex = "\\section{ Intro }\n\\begin{table}[h]\n a\nb\nc\nd\ne\nf\ng\n\\end{table}\n\\begin{equation}\nx = 1\n+ 2\n\\end{equation}\n";
    let ctx = DocumentVerifier::extract_document_context(tex);
    assert_eq!(
        ctx,
        "SECTIONS:\n- Intro\n\nTABLES:\nTable 1:\n[h]\n a\nb\nc\nd\ne\n---\n\nEQUATIONS:\n- x = 1 + 2\n"
    );
}

#[test]
fn claim_prompt_and_diagnostics() {
    let cand = CandidateClaim { line: 3, passage: "P".to_string(), claim_type: "T".to_string() };
    let m = DocumentVerifier::claim_messages(&cand, "CTX");
    assert_eq!(m.len(), 2);
    assert_eq!(m[0].role, "system");
    assert_eq!(m[1].role, "user");
    assert_eq!(
        m[1].content.as_deref(),
        Some("DOCUMENT CONTEXT:\nCTX\n\nCANDIDATE CLAIM (Line 3):\n\"P\"\nCLAIM TYPE: T\n\nEvaluate claim confidence:")
    );
    assert!(m[0].content.as_deref().unwrap().starts_with("You are a world-class scientific referee"));
    assert!(DocumentVerifier::claim_json_ok("x {\"a\": 1} y"));
    assert_eq!(DocumentVerifier::claim_json("x {\"a\": 1} y"), "{\"a\": 1}");
    assert_eq!(DocumentVerifier::claim_json("none"), "none");
    assert!(!DocumentVerifier::claim_json_ok("} a {"));
    let d = DocumentVerifier::claim_diagnostic(4, ConfidenceGrade::Fragile, "35", "why", "P", None).unwrap();
    assert_eq!(d.message, "Fragile scientific claim (confidence: 35%): why");
    assert_eq!(d.severity, DiagnosticSeverity::Warning);
    let d2 = DocumentVerifier::claim_diagnostic(4, ConfidenceGrade::Low, "55", "w", "P", Some("s".to_string())).unwrap();
    assert_eq!(d2.severity, DiagnosticSeverity::Info);
    assert_eq!(d2.suggestion.as_deref(), Some("s"));
    assert!(DocumentVerifier::claim_diagnostic(4, ConfidenceGrade::High, "90", "w", "P", None).is_none());
}
