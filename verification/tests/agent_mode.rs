use kota::mode::AgentMode;
use kota::skills::{SkillComposer, SkillLibrary, SkillText, SkillWeight};

fn library(entries: &[(&str, &str)]) -> SkillLibrary {
    SkillLibrary {
        entries: entries
            .iter()
            .map(|(n, t)| SkillText { name: n.to_string(), text: t.to_string() })
            .collect(),
    }
}

#[test]
fn test_agent_mode_parsing() {
    assert_eq!(AgentMode::from_str("cpe"), AgentMode::Cpe);
    assert_eq!(AgentMode::from_str("EVAL"), AgentMode::Eval);
    assert_eq!(AgentMode::from_str("research"), AgentMode::Research);
    assert_eq!(AgentMode::from_str("architect"), AgentMode::Architect);
    assert_eq!(AgentMode::from_str("librarian"), AgentMode::Librarian);
    assert_eq!(AgentMode::from_str("unknown"), AgentMode::Coder);
}

#[test]
fn test_mode_prompts_contain_fields() {
    // Made-up skill texts holding the fields that the mode prompts must carry;
    // the prompts are composed from whatever skill files are present.
    let skills = library(&[
        ("base", "You are Kota, a local co-pilot.\n"),
        ("cpe", "Client platform engineering: manage launchd agents and query hosts with osqueryi.\n"),
        ("architect", "System design and infrastructure.\n"),
        ("research", "Literature review across Statistical Physics, Psycholinguistics and Quantum Computing.\n"),
        ("coder", "Write and test code.\n"),
    ]);
    let cpe = AgentMode::Cpe.system_prompt(&skills);
    assert!(cpe.contains("launchd"));
    assert!(cpe.contains("osqueryi"));

    let research = AgentMode::Research.system_prompt(&skills);
    assert!(research.contains("Statistical Physics"));
    assert!(research.contains("Psycholinguistics"));
    assert!(research.contains("Quantum Computing"));
}

#[test]
fn test_compose_skills() {
    let composer = SkillComposer::new("kota_test_skills");
    let skills = library(&[("base", "Base Instructions\n"), ("coder", "Coder Instructions\n")]);
    let weights = vec![SkillWeight { name: "coder".to_string(), weight: 100 }];
    let prompt = composer.compose(&weights, &skills);
    assert!(prompt.contains("Base Instructions"));
    assert!(prompt.contains("--- SKILL: coder (Weight: 1.00) ---"));
    assert!(prompt.contains("Coder Instructions"));
}

#[test]
fn mode_names_round_trip() {
    for m in [
        AgentMode::Coder,
        AgentMode::Cpe,
        AgentMode::Eval,
        AgentMode::Research,
        AgentMode::Architect,
        AgentMode::Librarian,
    ] {
        assert_eq!(AgentMode::from_str(m.to_str()), m);
        assert_eq!(AgentMode::from_str(&m.to_str().to_uppercase()), m);
    }
}

#[test]
fn compose_without_base_is_default_prompt() {
    let composer = SkillComposer::new(".kota_skills");
    let skills = library(&[("coder", "Coder Instructions\n")]);
    let weights = vec![SkillWeight { name: "coder".to_string(), weight: 100 }];
    assert_eq!(composer.compose(&weights, &skills), "You are Kota.");
}

#[test]
fn compose_orders_by_weight_and_skips_empty() {
    let composer = SkillComposer::new(".kota_skills");
    let skills = library(&[("base", "B"), ("a", "A text"), ("b", "B text"), ("c", "")]);
    let weights = vec![
        SkillWeight { name: "a".to_string(), weight: 20 },
        SkillWeight { name: "b".to_string(), weight: 150 },
        SkillWeight { name: "c".to_string(), weight: 300 },
        SkillWeight { name: "z".to_string(), weight: 0 },
    ];
    let prompt = composer.compose(&weights, &skills);
    assert_eq!(
        prompt,
        "B\n\n=== SYNTHESIZED SKILLS ===\n\n--- SKILL: b (Weight: 1.50) ---\nB text\n\n--- SKILL: a (Weight: 0.20) ---\nA text\n"
    );
}

#[test]
fn skill_file_path() {
    let composer = SkillComposer::new(".kota_skills");
    assert_eq!(composer.skill_file("coder"), ".kota_skills/coder.md");
    let composer = SkillComposer::new("dir/");
    assert_eq!(composer.skill_file("base"), "dir/base.md");
}

#[test]
fn coder_mode_weights() {
    let w = AgentMode::Coder.skill_weights();
    assert_eq!(w.len(), 2);
    assert_eq!(w[0].name, "coder");
    assert_eq!(w[0].weight, 100);
    assert_eq!(w[1].name, "eval");
    assert_eq!(w[1].weight, 20);
}

#[test]
fn documented_mode_weights() {
    let expected: [(AgentMode, &[(&str, i32)]); 5] = [
        (AgentMode::Coder, &[("coder", 100), ("eval", 20)]),
        (AgentMode::Research, &[("research", 100), ("coder", 30)]),
        (AgentMode::Cpe, &[("cpe", 100), ("architect", 40)]),
        (AgentMode::Architect, &[("architect", 100), ("cpe", 50)]),
        (AgentMode::Librarian, &[("librarian", 100), ("research", 40)]),
    ];
    for (mode, weights) in expected {
        let w = mode.skill_weights();
        assert_eq!(w.len(), weights.len());
        for (got, (name, hundredths)) in w.iter().zip(weights.iter()) {
            assert_eq!(got.name, *name);
            assert_eq!(got.weight, *hundredths);
        }
    }
}

#[test]
fn parsing_then_printing_gives_the_lowercase_name() {
    for s in ["CODER", "Cpe", "eval", "ReSeArCh", "ARCHITECT", "librarian"] {
        assert_eq!(AgentMode::from_str(s).to_str(), s.to_lowercase());
    }
    for s in ["unknown", "coders", ""] {
        assert_ne!(AgentMode::from_str(s).to_str(), s.to_lowercase());
    }
}
