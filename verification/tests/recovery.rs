use verlet_agent_loop::recovery::{
    effect_class_for_tool, effect_class_from_bind_receipt, exact_single_bash_operation_name, tool_recovery_action,
    AgentManifestBindReceipt, DirectToolBinding, EffectClass, OperationBinding, ToolRecoveryAction, ToolUniverse,
    UniverseTool,
};

fn command_arguments(command: &str) -> serde_json::Value {
    let mut map = serde_json::Map::new();
    map.insert("command".to_string(), serde_json::Value::String(command.to_string()));
    serde_json::Value::Object(map)
}

fn recovery_bind_receipt(effect_class: EffectClass) -> AgentManifestBindReceipt {
    AgentManifestBindReceipt {
        manifest_hash: "snapshot-recovery".to_string(),
        operation_bindings: vec![OperationBinding {
            name: "recovery".to_string(),
            effect_class,
            operations: vec!["recovery_tool".to_string()],
            direct_tools: vec![DirectToolBinding {
                tool_name: "recovery_tool".to_string(),
                operation: "recovery_tool".to_string(),
                effect_class,
            }],
        }],
        tool_universes: Vec::new(),
    }
}

#[test]
fn recovery_action_truth_table_honors_effect_class_and_fingerprint() {
    for effect_class in [EffectClass::Pure, EffectClass::Idempotent, EffectClass::AtMostOnce] {
        for outcome_exists in [false, true] {
            for fingerprint_matches in [false, true] {
                let expected = if outcome_exists && fingerprint_matches {
                    ToolRecoveryAction::Reuse
                } else if effect_class == EffectClass::AtMostOnce {
                    ToolRecoveryAction::ConservativeFailure
                } else {
                    ToolRecoveryAction::Reexecute
                };
                assert_eq!(
                    tool_recovery_action(effect_class, outcome_exists, fingerprint_matches),
                    expected,
                    "{effect_class:?} outcome_exists={outcome_exists} fingerprint_matches={fingerprint_matches}"
                );
            }
        }
    }
}

#[test]
fn bash_effect_class_requires_one_exactly_attributable_operation() {
    let mut receipt = recovery_bind_receipt(EffectClass::Idempotent);
    receipt.operation_bindings[0].operations = vec!["safe".to_string()];
    receipt.operation_bindings[0].direct_tools.clear();

    assert_eq!(
        effect_class_from_bind_receipt(&receipt, "bash", &command_arguments("safe argument")),
        EffectClass::Idempotent
    );
    for command in [
        "FOO=1 safe",
        "safe; destructive",
        "safe ; destructive",
        "safe && destructive",
        "safe || destructive",
        "safe | destructive",
        "safe\ndestructive",
        "safe > /tmp/output",
        "safe $(destructive)",
        "safe `destructive`",
        "\"safe\" argument",
    ] {
        assert_eq!(
            effect_class_from_bind_receipt(&receipt, "bash", &command_arguments(command)),
            EffectClass::AtMostOnce,
            "compound or shell-evaluated command {command:?} must fail closed"
        );
    }
}

#[test]
fn single_simple_commands_name_their_executable() {
    assert_eq!(exact_single_bash_operation_name("safe argument"), Some("safe"));
    assert_eq!(exact_single_bash_operation_name("   safe  --flag"), Some("safe"));
    assert_eq!(exact_single_bash_operation_name("safe\t--flag"), None);
    assert_eq!(exact_single_bash_operation_name("safe"), Some("safe"));
    assert_eq!(exact_single_bash_operation_name(""), None);
    assert_eq!(exact_single_bash_operation_name("   "), None);
    assert_eq!(exact_single_bash_operation_name("A=1"), None);
    assert_eq!(exact_single_bash_operation_name("safe {x}"), None);
    assert_eq!(exact_single_bash_operation_name("safe\\ x"), None);
}

#[test]
fn direct_tools_win_then_universes_then_the_strictest_operation() {
    let receipt = AgentManifestBindReceipt {
        manifest_hash: "snapshot".to_string(),
        operation_bindings: vec![
            OperationBinding {
                name: "first".to_string(),
                effect_class: EffectClass::Pure,
                operations: vec!["shared".to_string(), "read".to_string()],
                direct_tools: vec![DirectToolBinding {
                    tool_name: "direct".to_string(),
                    operation: "read".to_string(),
                    effect_class: EffectClass::Idempotent,
                }],
            },
            OperationBinding {
                name: "second".to_string(),
                effect_class: EffectClass::Idempotent,
                operations: vec!["shared".to_string()],
                direct_tools: Vec::new(),
            },
        ],
        tool_universes: vec![ToolUniverse {
            tools: vec![
                UniverseTool { tool_name: "universal".to_string(), effect_class: EffectClass::Pure },
                UniverseTool { tool_name: "direct".to_string(), effect_class: EffectClass::AtMostOnce },
            ],
        }],
    };
    assert_eq!(effect_class_for_tool(&receipt, "direct", None), EffectClass::Idempotent);
    assert_eq!(effect_class_for_tool(&receipt, "universal", None), EffectClass::Pure);
    assert_eq!(effect_class_for_tool(&receipt, "shared", None), EffectClass::Idempotent);
    assert_eq!(effect_class_for_tool(&receipt, "read", None), EffectClass::Pure);
    assert_eq!(effect_class_for_tool(&receipt, "unknown", None), EffectClass::AtMostOnce);
    assert_eq!(effect_class_for_tool(&receipt, "bash", Some("shared --x")), EffectClass::Idempotent);
    assert_eq!(effect_class_for_tool(&receipt, "bash", None), EffectClass::AtMostOnce);
    assert_eq!(
        effect_class_from_bind_receipt(&receipt, "bash", &command_arguments("read notes")),
        EffectClass::Pure
    );
    assert_eq!(
        effect_class_from_bind_receipt(&receipt, "bash", &serde_json::Value::Null),
        EffectClass::AtMostOnce
    );
    assert_eq!(
        effect_class_from_bind_receipt(&receipt, "shared", &serde_json::Value::Null),
        EffectClass::Idempotent
    );
}

#[test]
fn at_most_once_calls_are_never_reexecuted_and_mismatches_never_reused() {
    for outcome_exists in [false, true] {
        for fingerprint_matches in [false, true] {
            assert_ne!(
                tool_recovery_action(EffectClass::AtMostOnce, outcome_exists, fingerprint_matches),
                ToolRecoveryAction::Reexecute
            );
        }
    }
    for effect_class in [EffectClass::Pure, EffectClass::Idempotent, EffectClass::AtMostOnce] {
        assert_ne!(tool_recovery_action(effect_class, true, false), ToolRecoveryAction::Reuse);
    }
}
