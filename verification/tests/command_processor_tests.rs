use xt_core::command_processor::{
    parse_command_processor, CommandErrorPolicy, CommandExecution, CommandExecutionFailure,
    CommandExecutionReport, CommandProcessorParseError, CommandProcessorScript, ExecStep, ProcessorCommandKind,
};

#[test]
fn parses_delphi_processor_sample_and_preserves_windows_paths() {
    let script = parse_command_processor(
        r#"
# processor sample
Global_VocabFolder=C:\Vocab
Global_ImportFolder=C:\Imports
Global_ExportFolder=C:\Exports

StartRule
LangSource=english
LangDest=chinese
UseDataDir=false
ExportSubFolder=Translated
Command=LoadFile:C:\Games\Skyrim Special Edition\Data\Example.esp
Command=ApplySst:0:1:Example.esp
Command=ImportSst:2:3:C:\Imports\Example.sst
Command=ImportXml:1:0:C:\Imports\Example.xml
Command=ApiTranslation:5:1
Command=Finalize
Command=CloseFile
EndRule
"#,
    )
    .expect("sample processor should parse");

    assert_eq!(script.globals.vocab_folder.as_deref(), Some(r"C:\Vocab"));
    assert_eq!(script.globals.import_folder.as_deref(), Some(r"C:\Imports"));
    assert_eq!(script.globals.export_folder.as_deref(), Some(r"C:\Exports"));
    assert_eq!(script.rules.len(), 1);

    let rule = &script.rules[0];
    assert_eq!(rule.lang_source.as_deref(), Some("english"));
    assert_eq!(rule.lang_dest.as_deref(), Some("chinese"));
    assert!(!rule.use_data_dir);
    assert_eq!(rule.export_subfolder.as_deref(), Some("Translated"));
    assert_eq!(rule.commands.len(), 7);
    assert_eq!(
        rule.commands[0].kind,
        ProcessorCommandKind::LoadFile { path: r"C:\Games\Skyrim Special Edition\Data\Example.esp".to_string() }
    );
    assert_eq!(
        rule.commands[1].kind,
        ProcessorCommandKind::ApplySst { compare_option: 0, apply_mode: 1, path: "Example.esp".to_string() }
    );
    assert_eq!(rule.commands[4].kind, ProcessorCommandKind::ApiTranslation { api_id: 5, auto_no_trans_tag: true });
}

#[test]
fn defaults_use_data_dir_to_true_like_delphi() {
    let script = parse_command_processor("StartRule\nUseDataDir=not-a-bool\nCommand=CloseAll\nEndRule\n")
        .expect("Delphi defaults invalid UseDataDir to true");

    assert!(script.rules[0].use_data_dir);
}

#[test]
fn command_keywords_are_case_insensitive() {
    let script = parse_command_processor("sTaRtRuLe\nCoMmAnD=LoAdMaStErS\ncommand=SaveDictionary\neNdRuLe\n")
        .expect("processor keywords should be case insensitive");

    assert_eq!(
        script.rules[0].commands.iter().map(|command| &command.kind).collect::<Vec<_>>(),
        vec![&ProcessorCommandKind::LoadMasters, &ProcessorCommandKind::SaveDictionary]
    );
}

#[test]
fn reports_unknown_command_with_source_line() {
    let error = parse_command_processor("StartRule\nCommand=LoadFile:test.esp\nCommand=RunShell:del *\nEndRule\n")
        .expect_err("unknown commands must be rejected");

    assert_eq!(error, CommandProcessorParseError::UnknownCommand { line: 3, command: "RunShell".to_string() });
}

#[test]
fn reports_structural_errors_with_source_line() {
    assert_eq!(
        parse_command_processor("EndRule\n").expect_err("orphan EndRule must fail"),
        CommandProcessorParseError::UnexpectedEndRule { line: 1 }
    );
    assert_eq!(
        parse_command_processor("StartRule\nStartRule\n").expect_err("nested StartRule must fail"),
        CommandProcessorParseError::NestedStartRule { line: 2 }
    );
    assert_eq!(
        parse_command_processor("StartRule\nCommand=CloseAll\n").expect_err("unterminated rule must fail"),
        CommandProcessorParseError::UnterminatedRule { line: 1 }
    );
}

#[test]
fn command_outside_rule_is_rejected() {
    assert_eq!(
        parse_command_processor("Command=CloseAll\n").expect_err("commands outside rules must fail"),
        CommandProcessorParseError::CommandOutsideRule { line: 1 }
    );
}

#[test]
fn malformed_import_parameters_are_reported() {
    let error = parse_command_processor("StartRule\nCommand=ApplySst:x:1:test.sst\nEndRule\n")
        .expect_err("invalid numeric parameters must fail");

    assert_eq!(
        error,
        CommandProcessorParseError::InvalidParameter {
            line: 2,
            command: "ApplySst".to_string(),
            parameter: "compare option",
            value: "x".to_string(),
        }
    );
}

#[test]
fn missing_and_flag_parameters_are_reported() {
    assert_eq!(
        parse_command_processor("StartRule\nCommand=LoadFile\nEndRule\n").unwrap_err(),
        CommandProcessorParseError::MissingParameter { line: 2, command: "LoadFile".to_string(), parameter: "path" }
    );
    assert_eq!(
        parse_command_processor("StartRule\nCommand=ApiTranslation:3:maybe\nEndRule\n").unwrap_err(),
        CommandProcessorParseError::InvalidParameter {
            line: 2,
            command: "ApiTranslation".to_string(),
            parameter: "auto-no-translation-tag flag",
            value: "maybe".to_string(),
        }
    );
    assert_eq!(
        parse_command_processor("StartRule\nCommand=ImportXml:1:+2:a:b.xml\nEndRule\n").unwrap().rules[0].commands[0].kind,
        ProcessorCommandKind::ImportXml { compare_option: 1, apply_mode: 2, path: "a:b.xml".to_string() }
    );
    assert!(matches!(
        parse_command_processor("StartRule\nCommand=ApplySst:256:1:x\nEndRule\n").unwrap_err(),
        CommandProcessorParseError::InvalidParameter { line: 2, .. }
    ));
}

fn run(script: &CommandProcessorScript, policy: CommandErrorPolicy, fail_on: &str) -> (CommandExecutionReport, Vec<String>) {
    let mut exec = CommandExecution::start(script, policy);
    let mut seen = Vec::new();
    loop {
        let outcome = match exec.next {
            ExecStep::Finished => break,
            ExecStep::BeginRule { rule_index } => {
                seen.push(format!("begin:{}", rule_index + 1));
                Ok(())
            }
            ExecStep::ExecuteCommand { rule_index, command_index } => {
                let name = script.rules[rule_index].commands[command_index].kind.name();
                seen.push(format!("command:{}:{}:{}", rule_index + 1, command_index + 1, name));
                if name == fail_on {
                    Err(format!("{name} failed"))
                } else {
                    Ok(())
                }
            }
            ExecStep::EndRule { rule_index } => {
                seen.push(format!("end:{}", rule_index + 1));
                Ok(())
            }
        };
        exec.record(script, outcome);
    }
    (exec.report, seen)
}

#[test]
fn executor_stops_and_reports_exact_rule_command_and_line() {
    let script = parse_command_processor(
        "StartRule\nCommand=LoadFile:test.esp\nCommand=ImportXml:0:1:test.xml\nCommand=Finalize\nEndRule\n",
    )
    .unwrap();
    let (report, seen) = run(&script, CommandErrorPolicy::Stop, "ImportXml");
    assert_eq!(report.commands_succeeded, 1);
    assert!(report.stopped_early);
    assert_eq!(report.failures.len(), 1);
    assert_eq!(
        report.failures[0],
        CommandExecutionFailure {
            rule_number: 1,
            command_number: Some(2),
            line: 3,
            command: Some("ImportXml"),
            message: "ImportXml failed".to_string(),
        }
    );
    assert_eq!(seen, vec!["begin:1", "command:1:1:LoadFile", "command:1:2:ImportXml"]);
}

#[test]
fn executor_can_continue_after_failure() {
    let script = parse_command_processor("StartRule\nCommand=LoadFile:test.esp\nCommand=Finalize\nEndRule\n").unwrap();
    let (report, seen) = run(&script, CommandErrorPolicy::Continue, "LoadFile");
    assert_eq!(report.commands_succeeded, 1);
    assert_eq!(report.failures.len(), 1);
    assert!(!report.stopped_early);
    assert_eq!(report.rules_completed, 0);
    assert_eq!(seen.last().map(String::as_str), Some("end:1"));
}

#[test]
fn default_policy_is_stop() {
    assert_eq!(CommandErrorPolicy::default(), CommandErrorPolicy::Stop);
}
