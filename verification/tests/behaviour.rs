use soundry::{
    parse_sfz, parse_sfz_with_options, ControlIndex, Diagnostic, Directive, HeaderBlock,
    HeaderKind, IncludeError, IncludeResolver, LoopMode, OffMode, Opcode, ParseError,
    ParseOptions, RawOpcode, Severity, SfzDocument, SourceSpan, Trigger,
};
use std::collections::HashMap;

struct MapResolver(HashMap<String, String>);

impl IncludeResolver for MapResolver {
    fn resolve(&self, path: &str) -> Result<String, IncludeError> {
        self.0
            .get(path)
            .cloned()
            .ok_or_else(|| IncludeError::new("missing include"))
    }
}

fn resolver(pairs: &[(&str, &str)]) -> MapResolver {
    MapResolver(
        pairs
            .iter()
            .map(|(k, v)| (k.to_string(), v.to_string()))
            .collect(),
    )
}

fn region_diag_messages(document: &SfzDocument) -> Vec<String> {
    document.regions[0]
        .diagnostics
        .iter()
        .map(|d| d.message.clone())
        .collect()
}

fn messages(document: &SfzDocument) -> Vec<String> {
    document.diagnostics.iter().map(|d| d.message.clone()).collect()
}

#[test]
fn header_names_ignore_case_and_spaces() {
    let document = parse_sfz("<REGION>sample=a.wav\n< Group >\n<MiDi>").unwrap();
    assert_eq!(document.blocks[0].kind, HeaderKind::Region);
    assert_eq!(document.blocks[1].kind, HeaderKind::Group);
    assert_eq!(document.blocks[2].kind, HeaderKind::Midi);
    assert_eq!(HeaderKind::from_name("  Effect "), HeaderKind::Effect);
    assert_eq!(HeaderKind::from_name("CURVE"), HeaderKind::Curve);
}

#[test]
fn unknown_header_is_kept_lowercased() {
    let document = parse_sfz("<FooBar>\nx=1").unwrap();
    assert_eq!(document.blocks[0].kind, HeaderKind::Unknown("foobar".into()));
}

#[test]
fn content_before_any_header_forms_a_preamble_block() {
    let document = parse_sfz("a=1\n<region>\nsample=b.wav").unwrap();
    assert_eq!(document.blocks[0].kind, HeaderKind::Unknown("preamble".into()));
    assert_eq!(document.blocks[0].opcodes[0].key, "a");
    assert_eq!(document.blocks[0].span, Some(SourceSpan { line: 1, column: 1 }));
    assert_eq!(document.blocks.len(), 2);
}

#[test]
fn unterminated_header_is_an_error() {
    let document = parse_sfz("<region\nkey=1").unwrap();
    assert_eq!(messages(&document), vec!["unterminated header on line 1".to_string()]);
    assert_eq!(document.diagnostics[0].severity, Severity::Error);
}

#[test]
fn unsupported_directive_is_a_warning() {
    let document = parse_sfz("<region>\n#pragma once").unwrap();
    assert_eq!(messages(&document), vec!["unsupported directive on line 2".to_string()]);
    assert_eq!(document.diagnostics[0].severity, Severity::Warning);
}

#[test]
fn unparsable_content_is_a_warning() {
    let document = parse_sfz("<region>\n  !!! odd").unwrap();
    assert_eq!(
        messages(&document),
        vec!["could not parse content on line 2: !!! odd".to_string()]
    );
}

#[test]
fn values_may_hold_spaces_up_to_the_next_assignment() {
    let document = parse_sfz("<region> sample=My Kick.wav key=36 <region> sample=b.wav").unwrap();
    assert_eq!(document.regions.len(), 2);
    assert!(document.regions[0]
        .typed_opcodes
        .contains(&Opcode::Sample("My Kick.wav".into())));
    assert!(document.regions[0].typed_opcodes.contains(&Opcode::Key(36)));
}

#[test]
fn spans_count_lines_and_byte_columns() {
    let document = parse_sfz("<region>\nsample=x key=1\n<région> é=1 lokey=2").unwrap();
    let ops = &document.blocks[0].opcodes;
    assert_eq!(ops[0].span, Some(SourceSpan { line: 2, column: 1 }));
    assert_eq!(ops[1].span, Some(SourceSpan { line: 2, column: 10 }));
    assert_eq!(document.blocks[1].kind, HeaderKind::Unknown("région".into()));
    assert_eq!(document.blocks[1].span, Some(SourceSpan { line: 3, column: 1 }));
}

#[test]
fn comments_are_removed() {
    let document = parse_sfz(
        "<region> // a region\nsample=a.wav /* block\ncomment */ key=40\n/* <group> */",
    )
    .unwrap();
    assert_eq!(document.blocks.len(), 1);
    let ops = &document.blocks[0].opcodes;
    assert_eq!(ops.len(), 2);
    assert_eq!(ops[0].value, "a.wav");
    assert_eq!(ops[1].key, "key");
    assert_eq!(ops[1].span, Some(SourceSpan { line: 3, column: 2 }));
}

#[test]
fn later_define_replaces_earlier_one() {
    let document = parse_sfz("#define $N 1\n<region>\nkey=$N\n#define $N 2\nlokey=$N").unwrap();
    let typed = &document.regions[0].typed_opcodes;
    assert!(typed.contains(&Opcode::Key(1)));
    assert!(typed.contains(&Opcode::LoKey(2)));
}

#[test]
fn define_is_not_applied_to_earlier_opcodes() {
    let document = parse_sfz("<region>\nsample=$X.wav\n#define $X kick").unwrap();
    assert!(document.regions[0]
        .typed_opcodes
        .contains(&Opcode::Sample("$X.wav".into())));
}

#[test]
fn include_without_resolver_is_kept_and_reported() {
    let document = parse_sfz("<control>\n#include \"a.sfz\"").unwrap();
    let control = document.control.as_ref().unwrap();
    assert_eq!(control.includes, vec!["a.sfz".to_string()]);
    assert_eq!(
        document.blocks[0].directives[0],
        Directive::Include {
            path: "a.sfz".into(),
            span: Some(SourceSpan { line: 2, column: 1 })
        }
    );
    assert_eq!(messages(&document), vec!["include `a.sfz` was not resolved".to_string()]);
    assert_eq!(document.diagnostics[0].value.as_deref(), Some("a.sfz"));
}

#[test]
fn include_forms_are_read() {
    let document = parse_sfz("#include = 'x.sfz'\n#define $V\n#define").unwrap();
    let block = &document.blocks[0];
    assert_eq!(block.directives.len(), 2);
    assert_eq!(
        block.directives[1],
        Directive::Define {
            name: "$V".into(),
            value: "".into(),
            span: Some(SourceSpan { line: 2, column: 1 })
        }
    );
    assert!(messages(&document).contains(&"unsupported directive on line 3".to_string()));
}

#[test]
fn failed_include_is_an_error() {
    let r = resolver(&[]);
    let document = parse_sfz_with_options(
        "<region>\nsample=a.wav\n#include \"gone.sfz\"",
        ParseOptions::with_include_resolver(&r),
    )
    .unwrap();
    assert_eq!(
        messages(&document),
        vec!["failed to include `gone.sfz`: missing include".to_string()]
    );
    assert_eq!(document.diagnostics[0].severity, Severity::Error);
    assert_eq!(document.regions.len(), 1);
}

#[test]
fn recursive_include_is_skipped() {
    let r = resolver(&[("self.sfz", "<region>\nkey=1\n#include \"self.sfz\"\n")]);
    let document =
        parse_sfz_with_options("#include \"self.sfz\"", ParseOptions::with_include_resolver(&r))
            .unwrap();
    assert_eq!(document.regions.len(), 1);
    assert_eq!(
        messages(&document),
        vec!["skipping recursive include `self.sfz`".to_string()]
    );
}

#[test]
fn include_depth_is_limited() {
    let r = resolver(&[
        ("a.sfz", "#include \"b.sfz\"\n<region>\nkey=1"),
        ("b.sfz", "<region>\nkey=2"),
    ]);
    let mut options = ParseOptions::with_include_resolver(&r);
    options.max_include_depth = 1;
    let document = parse_sfz_with_options("#include \"a.sfz\"", options).unwrap();
    assert_eq!(
        messages(&document),
        vec!["include depth limit reached while parsing b.sfz".to_string()]
    );
    assert_eq!(document.regions.len(), 1);
    assert!(document.regions[0].typed_opcodes.contains(&Opcode::Key(1)));
}

#[test]
fn nested_includes_are_expanded_in_place() {
    let r = resolver(&[
        ("a.sfz", "<region>\nkey=1\n#include \"b.sfz\""),
        ("b.sfz", "<region>\nkey=2"),
    ]);
    let document = parse_sfz_with_options(
        "<region>\nkey=0\n#include \"a.sfz\"\n<region>\nkey=3",
        ParseOptions::with_include_resolver(&r),
    )
    .unwrap();
    let keys: Vec<Opcode> = document
        .regions
        .iter()
        .map(|region| region.typed_opcodes[0].clone())
        .collect();
    assert_eq!(
        keys,
        vec![Opcode::Key(0), Opcode::Key(1), Opcode::Key(2), Opcode::Key(3)]
    );
    assert!(document.diagnostics.is_empty());
}

#[test]
fn options_without_resolver_parse_like_parse_sfz() {
    let text = "<region>\n#include \"p.sfz\"\nkey=5";
    let a = parse_sfz(text).unwrap();
    let b = parse_sfz_with_options(text, ParseOptions::default()).unwrap();
    assert_eq!(a, b);
}

#[test]
fn integer_values_follow_rust_parsing() {
    let document = parse_sfz(
        "<region>\nkey=+36\nlokey=127\nhikey=-1\noffset=4294967295\nend=4294967296\n\
         group=-2147483648\noff_by=2147483648\nseq_length=007",
    )
    .unwrap();
    let typed = &document.regions[0].typed_opcodes;
    assert!(typed.contains(&Opcode::Key(36)));
    assert!(typed.contains(&Opcode::LoKey(127)));
    assert!(typed.contains(&Opcode::Offset(4294967295)));
    assert!(typed.contains(&Opcode::Group(-2147483648)));
    assert!(typed.contains(&Opcode::SeqLength(7)));
    assert_eq!(
        region_diag_messages(&document),
        vec![
            "expected integer in MIDI range 0..=127".to_string(),
            "expected unsigned integer".to_string(),
            "expected integer".to_string(),
        ]
    );
}

#[test]
fn midi_values_over_127_are_out_of_range() {
    let document = parse_sfz("<region>\nkey=300\nhivel=65536").unwrap();
    assert_eq!(
        region_diag_messages(&document),
        vec![
            "value must be in MIDI range 0..=127".to_string(),
            "expected integer in MIDI range 0..=127".to_string(),
        ]
    );
    assert_eq!(document.regions[0].raw_opcodes.len(), 2);
    assert!(document.regions[0].unknown_opcodes.is_empty());
}

#[test]
fn number_values_follow_float_syntax() {
    let good = ["1", "-3", "+0.5", ".5", "5.", "1e3", "1E-3", "inf", "-Infinity", "NaN"];
    for value in good {
        let document = parse_sfz(&format!("<region>\npan={value}")).unwrap();
        assert!(
            document.regions[0].diagnostics.is_empty(),
            "{value} should be a number"
        );
        assert!(value.parse::<f32>().is_ok());
    }
    let bad = [".", "1e", "e5", "--1", "1.2.3", "infinite", "0x10", " "];
    for value in bad {
        let document = parse_sfz(&format!("<region>\npan={value}")).unwrap();
        assert_eq!(
            region_diag_messages(&document),
            vec!["expected number".to_string()],
            "{value} should not be a number"
        );
        assert!(value.trim().parse::<f32>().is_err() || value.trim().is_empty());
    }
}

#[test]
fn enumerated_values() {
    let document = parse_sfz(
        "<region>\nloop_mode=one_shot\ntrigger=release\noff_mode=normal\n<region>\n\
         loop_mode=forever\ntrigger=later\noff_mode=slow",
    )
    .unwrap();
    let typed = &document.regions[0].typed_opcodes;
    assert!(typed.contains(&Opcode::LoopMode(LoopMode::OneShot)));
    assert!(typed.contains(&Opcode::Trigger(Trigger::Release)));
    assert!(typed.contains(&Opcode::OffMode(OffMode::Normal)));
    let messages: Vec<String> = document.regions[1]
        .diagnostics
        .iter()
        .map(|d| d.message.clone())
        .collect();
    assert_eq!(
        messages,
        vec![
            "unknown loop_mode".to_string(),
            "unknown trigger".to_string(),
            "unknown off_mode".to_string(),
        ]
    );
}

#[test]
fn control_labels_and_cc_settings() {
    let document = parse_sfz(
        "<control>\nlabel_cc$MOD=Mod\nlabel_cc$=x\nlabel_cc200=x\nlabel_ccA=x\nset_cc128=1\n\
         set_ccx=1\nset_cc2=loud\nsample=a.wav\nx_vendor=1",
    )
    .unwrap();
    let control = document.control.unwrap();
    assert_eq!(control.label_cc.len(), 1);
    assert_eq!(control.label_cc[0].key, "label_cc$MOD");
    assert_eq!(control.raw_opcodes.len(), 9);
    assert_eq!(control.unknown_opcodes.len(), 2);
    let messages: Vec<String> = control.diagnostics.iter().map(|d| d.message.clone()).collect();
    assert_eq!(
        messages,
        vec![
            "empty CC variable name".to_string(),
            "CC number must be in range 0..=127".to_string(),
            "expected label_ccN or label_cc$VAR".to_string(),
            "CC number must be in range 0..=127".to_string(),
            "expected set_ccN with numeric N".to_string(),
            "expected numeric CC value".to_string(),
        ]
    );
    assert_eq!(document.diagnostics.len(), 6);
}

#[test]
fn label_cc_variable_becomes_control_index() {
    let document = parse_sfz("<region>\nlabel_cc$MOD=Mod\nlabel_cc7=Vol").unwrap();
    let typed = &document.regions[0].typed_opcodes;
    assert!(typed.contains(&Opcode::LabelCc {
        cc: ControlIndex::Variable("MOD".into()),
        label: "Mod".into()
    }));
    assert!(typed.contains(&Opcode::LabelCc {
        cc: ControlIndex::Number(7),
        label: "Vol".into()
    }));
}

#[test]
fn curve_value_keys() {
    let document = parse_sfz("<region>\nv064=0.5\nv128=1\nv12=1\nv010=abc").unwrap();
    let region = &document.regions[0];
    assert_eq!(region_diag_messages(&document), vec!["expected curve value number".to_string()]);
    assert!(region.typed_opcodes.iter().any(|op| matches!(
        op,
        Opcode::CurveValue { index: 64, value } if value.text == "0.5"
    )));
    assert_eq!(region.unknown_opcodes.len(), 2);
}

#[test]
fn global_resets_master_and_group() {
    let document = parse_sfz(
        "<global>\nlovel=1\n<master>\nhivel=2\n<group>\nkey=3\n<global>\nlokey=4\n<region>\nsample=a",
    )
    .unwrap();
    let raw: Vec<String> = document.regions[0]
        .raw_opcodes
        .iter()
        .map(|op| op.key.clone())
        .collect();
    assert_eq!(raw, vec!["lokey".to_string(), "sample".to_string()]);
}

#[test]
fn master_resets_group_and_group_replaces_group() {
    let document = parse_sfz(
        "<global>\nlovel=1\n<group>\nkey=3\n<master>\nhivel=2\n<region>\nsample=a\n\
         <group>\nkey=5\n<group>\nkey=6\n<region>\nsample=b",
    )
    .unwrap();
    let keys = |i: usize| -> Vec<String> {
        document.regions[i]
            .raw_opcodes
            .iter()
            .map(|op| op.key.clone())
            .collect()
    };
    assert_eq!(keys(0), vec!["lovel", "hivel", "sample"]);
    assert_eq!(keys(1), vec!["lovel", "hivel", "key", "sample"]);
    assert!(document.regions[1].typed_opcodes.contains(&Opcode::Key(6)));
}

#[test]
fn override_keeps_first_place_and_last_value() {
    let document = parse_sfz("<global>\nkey=1\nsample=g\n<region>\nlokey=2\nkey=3\nkey=4").unwrap();
    let raw = &document.regions[0].raw_opcodes;
    let pairs: Vec<(String, String)> = raw
        .iter()
        .map(|op| (op.key.clone(), op.value.clone()))
        .collect();
    assert_eq!(
        pairs,
        vec![
            ("key".to_string(), "4".to_string()),
            ("sample".to_string(), "g".to_string()),
            ("lokey".to_string(), "2".to_string()),
        ]
    );
}

#[test]
fn every_raw_opcode_is_counted_once() {
    let document = parse_sfz("<region>\nkey=1\nkey2=x\nvolume=loud\nsample=s\nv200=1").unwrap();
    let region = &document.regions[0];
    assert_eq!(
        region.typed_opcodes.len() + region.unknown_opcodes.len() + region.diagnostics.len(),
        region.raw_opcodes.len()
    );
    assert_eq!(region.unknown_opcodes.len(), 2);
}

#[test]
fn one_region_per_region_block() {
    let document = parse_sfz("<region><region>\n<group><region>\n<curve>").unwrap();
    assert_eq!(document.regions.len(), 3);
}

#[test]
fn no_control_block_means_no_control() {
    let document = parse_sfz("<region>\ndefault_path=x").unwrap();
    assert!(document.control.is_none());
}

#[test]
fn constructors() {
    let block = HeaderBlock::new(HeaderKind::Global, 4);
    assert_eq!(block.span, Some(SourceSpan { line: 4, column: 1 }));
    assert!(block.opcodes.is_empty() && block.directives.is_empty());
    let op = RawOpcode::new("key".to_string(), "1".to_string(), 2, 3);
    assert_eq!(op.span, Some(SourceSpan { line: 2, column: 3 }));
    let d = Diagnostic::for_opcode(Severity::Error, "bad", &op);
    assert_eq!(d.opcode.as_deref(), Some("key"));
    assert_eq!(d.value.as_deref(), Some("1"));
    assert_eq!(d.span, op.span);
    assert_eq!(Diagnostic::warning("w").severity, Severity::Warning);
    assert_eq!(Diagnostic::error("e").message, "e");
    assert_eq!(ParseError::new("p").message, "p");
    assert_eq!(IncludeError::new("i").message, "i");
    let inc = Directive::Include { path: "a".into(), span: Some(SourceSpan { line: 9, column: 2 }) };
    assert_eq!(inc.span(), Some(SourceSpan { line: 9, column: 2 }));
    let doc = SfzDocument::new(vec![block]);
    assert!(doc.control.is_none() && doc.regions.is_empty() && doc.diagnostics.is_empty());
    let options = ParseOptions::default();
    assert!(options.include_resolver.is_none());
    assert_eq!(options.max_include_depth, 0);
}

#[test]
fn text_without_includes_parses_the_same_with_a_resolver() {
    let text = "<global>\nvolume=-3\n<region> sample=a.wav key=36\n<region>\nkey=1";
    let r = resolver(&[]);
    let a = parse_sfz(text).unwrap();
    let b = parse_sfz_with_options(text, ParseOptions::with_include_resolver(&r)).unwrap();
    assert_eq!(a, b);
}

fn chars(s: &str) -> Vec<char> {
    s.chars().collect()
}

#[test]
fn define_replaces_every_occurrence() {
    let defs = vec![("$EXT".to_string(), "wav".to_string())];
    let out = soundry::parser::substitute_defines(&chars("kick.$EXT $EXT"), &defs);
    assert_eq!(out, chars("kick.wav wav"));
    let same = soundry::parser::substitute_defines(&chars("kick.wav"), &defs);
    assert_eq!(same, chars("kick.wav"));
    let none = soundry::parser::substitute_defines(&chars("kick.$EXT"), &vec![]);
    assert_eq!(none, chars("kick.$EXT"));
}

#[test]
fn empty_define_name_matches_every_boundary() {
    let defs = vec![(String::new(), "x".to_string())];
    assert_eq!(soundry::parser::substitute_defines(&chars("a"), &defs), chars("xax"));
    assert_eq!(soundry::parser::substitute_defines(&chars("ab"), &defs), chars("xaxbx"));
    assert_eq!(soundry::parser::substitute_defines(&chars(""), &defs), chars("x"));
    assert_eq!("ab".replace("", "x"), "xaxbx");
}

#[test]
fn opcode_at_end_of_line_is_none() {
    let line = chars("key=1");
    assert!(soundry::parser::parse_opcode_at(&line, line.len(), 1).is_none());
    let (op, next) = soundry::parser::parse_opcode_at(&line, 0, 1).unwrap();
    assert_eq!((op.key.as_str(), op.value.as_str(), next), ("key", "1", 5));
}

#[test]
fn resolver_options_hold_the_resolver() {
    let r = resolver(&[("a.sfz", "key=7")]);
    let options = ParseOptions::with_include_resolver(&r);
    assert_eq!(options.max_include_depth, 16);
    let held = options.include_resolver.unwrap();
    assert_eq!(held.resolve("a.sfz").unwrap(), "key=7");
}

fn raw(key: &str, value: &str) -> RawOpcode {
    RawOpcode::new(key.to_string(), value.to_string(), 1, 1)
}

#[test]
fn override_keeps_first_occurrence_order_and_is_idempotent() {
    let ops = vec![raw("b", "1"), raw("a", "2"), raw("b", "3"), raw("c", "4"), raw("a", "5")];
    let once = soundry::resolve::override_by_key(ops);
    let keys: Vec<&str> = once.iter().map(|o| o.key.as_str()).collect();
    let values: Vec<&str> = once.iter().map(|o| o.value.as_str()).collect();
    assert_eq!(keys, vec!["b", "a", "c"]);
    assert_eq!(values, vec!["3", "5", "4"]);
    let twice = soundry::resolve::override_by_key(once.clone());
    assert_eq!(twice, once);
}

#[test]
fn region_sees_latest_global_then_master_then_group() {
    let document = parse_sfz(
        "<master>\nhivel=9\n<global>\nlovel=1\n<group>\nkey=3\n<master>\nhivel=2\n\
         <group>\nlokey=5\n<region>\nsample=a\n<global>\nlovel=7\n<region>\nsample=b",
    )
    .unwrap();
    let pairs = |i: usize| -> Vec<(String, String)> {
        document.regions[i]
            .raw_opcodes
            .iter()
            .map(|op| (op.key.clone(), op.value.clone()))
            .collect()
    };
    let p = |k: &str, v: &str| (k.to_string(), v.to_string());
    assert_eq!(pairs(0), vec![p("lovel", "1"), p("hivel", "2"), p("lokey", "5"), p("sample", "a")]);
    assert_eq!(pairs(1), vec![p("lovel", "7"), p("sample", "b")]);
}

struct RecordingResolver {
    files: HashMap<String, String>,
    asked: std::cell::RefCell<Vec<String>>,
}

impl IncludeResolver for RecordingResolver {
    fn resolve(&self, path: &str) -> Result<String, IncludeError> {
        self.asked.borrow_mut().push(path.to_string());
        self.files
            .get(path)
            .cloned()
            .ok_or_else(|| IncludeError::new("missing include"))
    }
}

#[test]
fn resolver_is_asked_for_each_included_path_in_order() {
    let mut files = HashMap::new();
    files.insert("a.sfz".to_string(), "key=1\n#include \"b.sfz\"\n".to_string());
    let r = RecordingResolver { files, asked: std::cell::RefCell::new(Vec::new()) };
    let text = "#include \"a.sfz\"\n#include \"c.sfz\"\n#include \"a.sfz\"";
    let document = parse_sfz_with_options(text, ParseOptions::with_include_resolver(&r)).unwrap();
    assert_eq!(
        *r.asked.borrow(),
        vec!["a.sfz", "b.sfz", "c.sfz", "a.sfz", "b.sfz"]
    );
    let keys: Vec<&str> = document.blocks[0].opcodes.iter().map(|o| o.key.as_str()).collect();
    assert_eq!(keys, vec!["key", "key"]);
}

#[test]
fn default_control_is_empty() {
    let control = soundry::Control::default();
    assert!(control.default_path.is_none() && control.note_offset.is_none());
    assert!(control.octave_offset.is_none() && control.label_cc.is_empty());
    assert!(control.set_cc.is_empty() && control.defines.is_empty() && control.includes.is_empty());
    assert!(control.raw_opcodes.is_empty() && control.unknown_opcodes.is_empty());
    assert!(control.diagnostics.is_empty());
}
