use murkdown::ast::{Node, NodeBuilder};
use murkdown::compiler::lang::{replace, Lang};
use murkdown::compiler::rule::{Context, LangInstr, LangSettings};
use murkdown::compiler::rule_argument::Arg;
use murkdown::compiler::rule_parser::path_regex_of;
use murkdown::types::{Dependency, ExecArtifact, LibError};

#[test]
fn test_get_instructions() {
    let input = "RULES FOR test PRODUCE text/plain\n\
                 PREPROCESS RULES:\n\
                 [SEC...]$\n\
                 \x20 IS PARAGRAPHABLE\n\
                 \x20 NOOP\n";
    let lang = Lang::new(input).unwrap();

    let (instructions, settings) = lang.get_instructions("PREPROCESS", "[SEC]");
    let instructions = instructions.iter().collect::<Vec<&LangInstr>>();
    assert_eq!(
        instructions,
        vec![&LangInstr { op: "NOOP".into(), args: vec![] }]
    );
    assert!(settings.is_paragraphable);
}

#[test]
fn test_get_rules() {
    let input = "RULES FOR test PRODUCE text/plain\n\
                 PREPROCESS RULES:\n\
                 [FOO] [SEC...]$\n\
                 \x20 IS COMPOSABLE\n\
                 \x20 NOOP\n\
                 [SEC...]$\n\
                 \x20 NOOP\n";
    let lang = Lang::new(input).unwrap();

    let rules = lang.get_rules("PREPROCESS", "[FOO] [SEC]");
    assert_eq!(rules.len(), 2);
}

#[test]
fn rules_are_taken_up_to_the_first_that_is_not_composable() {
    let input = "RULES FOR test PRODUCE text/plain\n\
                 COMPILE RULES:\n\
                 [A]$\n\
                 \x20 NOOP\n\
                 LINE$\n\
                 \x20 IS COMPOSABLE\n\
                 \x20 NOOP\n\
                 [SEC] LINE$\n\
                 \x20 NOOP\n\
                 LINE$\n\
                 \x20 NOOP\n";
    let lang = Lang::new(input).unwrap();
    assert_eq!(lang.get_rules("COMPILE", "[SEC] LINE"), vec![1, 2]);
    assert_eq!(lang.get_rules("COMPILE", "[PAR] LINE"), vec![1, 3]);
    assert_eq!(lang.get_rules("COMPILE", "[A]"), vec![0]);
    assert_eq!(lang.get_rules("COMPILE", "[B]"), Vec::<usize>::new());
    assert_eq!(lang.get_rules("PREPROCESS", "[A]"), Vec::<usize>::new());
}

#[test]
fn test_evaluate() {
    let input = "RULES FOR test PRODUCE text/plain\n\
                 COMPILE RULES:\n\
                 [rule]\n\
                 \x20 PUSH foo \"hello\"\n\
                 \x20 PUSH indent foo\n\
                 \x20 PUSH indent \"world\"\n\
                 \x20 WRITE \"ok\"\n";
    let mut deps = Vec::new();
    let lang = Lang::new(input).unwrap();
    let mut node = Node::default();

    let (instructions, settings) = lang.get_instructions("COMPILE", "[rule]");
    let mut pc = 0;
    let mut ctx = Context::default();

    let value = lang
        .evaluate(&instructions, &mut pc, &mut ctx, &mut deps, &mut node, &settings)
        .unwrap();
    assert_eq!(ctx.stack("indent").unwrap(), &["hello", "world"]);
    assert_eq!(value, "ok");
    assert_eq!(pc, 4);
}

#[test]
fn test_evaluate_props() {
    let input = "RULES FOR test PRODUCE text/plain\n\
                 COMPILE RULES:\n\
                 [rule]\n\
                 \x20 WRITE \"$word \"\n\
                 \x20 POP PROP word\n\
                 \x20 WRITE \"$word\"\n";
    let mut deps = Vec::new();
    let lang = Lang::new(input).unwrap();
    let mut node = NodeBuilder::root()
        .add_prop(("word".into(), "hello".into()))
        .add_prop(("word".into(), "world".into()))
        .done();

    let (instructions, settings) = lang.get_instructions("COMPILE", "[rule]");
    let mut pc = 0;
    let mut ctx = Context::default();

    let value = lang
        .evaluate(&instructions, &mut pc, &mut ctx, &mut deps, &mut node, &settings)
        .unwrap();
    assert_eq!(value, "hello world");
}

#[test]
fn test_parse_rule() {
    let input = "RULES FOR test PRODUCE text/plain\n\
                 COMPILE RULES:\n\
                 [rule...]\n\
                 \x20 IS COMPOSABLE PARAGRAPHABLE REF-BY-COPY SRC-BY-EXEC\n\
                 \x20 PUSH foo \"bar\"\n\
                 \x20 WRITE \"this=\\\"that\\\"\\n\"\n";
    let lang = Lang::new(input).unwrap();

    let compile_rules = &lang.compile_rules;
    assert_eq!(compile_rules.len(), 1);
    let rule = &compile_rules[0];
    assert_eq!(rule.path, "[rule...]".to_string());
    assert_eq!(
        rule.instructions,
        vec![
            LangInstr {
                op: "PUSH".into(),
                args: vec![Arg::StackRef("foo".into()), Arg::Str("bar".into())],
            },
            LangInstr {
                op: "WRITE".into(),
                args: vec![Arg::Str(r#"this=\"that\"\n"#.into())],
            },
        ]
    );
    assert_eq!(rule.regex.as_str(), r#"\[ ?rule[^]]* ?\]"#);
    assert_eq!(
        rule.settings,
        LangSettings {
            is_composable: true,
            is_paragraphable: true,
            is_unescaped_value: false,
            default_src: Some("exec"),
            default_ref: Some("copy"),
        }
    );
    assert_eq!(lang.name, "test");
    assert_eq!(lang.media_type, "text/plain");
}

#[test]
fn rule_file_errors() {
    assert_eq!(Lang::new("").err(), Some(LibError::MissingRoot));
    assert_eq!(
        Lang::new("COMPILE RULES:\n").err(),
        Some(LibError::ParseRuleError("COMPILE RULES:".to_string()))
    );
    assert_eq!(
        Lang::new("RULES FOR t PRODUCE text/plain\nLINT RULES:\n").err(),
        Some(LibError::UnknownRuleSection("LINT".to_string()))
    );
    assert_eq!(
        Lang::new("RULES FOR t PRODUCE text/plain\nLINE$\n").err(),
        Some(LibError::ParseRuleError("LINE$".to_string()))
    );
    assert!(matches!(
        Lang::new("RULES FOR t PRODUCE text/plain\nCOMPILE RULES:\n(LINE\n").err(),
        Some(LibError::BadRuleRegex(_))
    ));
    assert_eq!(
        Lang::new("RULES FOR t PRODUCE text/plain\nCOMPILE RULES:\nLINE$\n  PUSH a PROP\n").err(),
        Some(LibError::InvalidRuleArgument("PROP".to_string()))
    );
    assert_eq!(
        Lang::new(
            "RULES FOR t PRODUCE text/plain\nCOMPILE RULES:\nLINE$\n  PUSH a 99999999999999999999\n"
        )
        .err(),
        Some(LibError::InvalidRuleArgumentType(
            "99999999999999999999".to_string(),
            "int".to_string()
        ))
    );
    assert_eq!(
        Lang::new("RULES FOR t PRODUCE text/plain\nCOMPILE RULES:\nLINE$\n  WRITE \"open\n").err(),
        Some(LibError::InvalidRuleArgument("  WRITE \"open".to_string()))
    );
    assert_eq!(
        Lang::new("RULES FOR t PRODUCE text/plain\nCOMPILE RULES:\nLINE$\n  IS SRC-BY-MAGIC\n")
            .err(),
        Some(LibError::ParseRuleError("SRC-BY-MAGIC".to_string()))
    );
}

#[test]
fn arguments_of_every_kind_are_read_and_written_back() {
    let lang = Lang::new(
        "RULES FOR t PRODUCE text/plain\n\
         COMPILE RULES:\n\
         LINE$\n\
         \x20 EXEC \"run $x\" TO \"out.txt\" AS \"id\"\n\
         \x20 EXEC \"run\" TO text/plain AS \"id\"\n\
         \x20 FROB -12 PROP key stack\n",
    )
    .unwrap();
    let rule = &lang.compile_rules[0];
    assert_eq!(
        rule.instructions[0].args,
        vec![
            Arg::Str("run $x".into()),
            Arg::File("out.txt".into()),
            Arg::URIPath("id".into())
        ]
    );
    assert_eq!(
        rule.instructions[1].args,
        vec![
            Arg::Str("run".into()),
            Arg::MediaType("text/plain".into()),
            Arg::URIPath("id".into())
        ]
    );
    assert_eq!(
        rule.instructions[2].args,
        vec![
            Arg::Int(-12),
            Arg::PropRef("key".into()),
            Arg::StackRef("stack".into())
        ]
    );
    assert_eq!(rule.instructions[2].to_text(), "FROB -12 PROP key stack");
    assert_eq!(
        rule.instructions[0].to_text(),
        "EXEC \"run $x\" TO  \"out.txt\" AS \"id\""
    );
    assert_eq!(rule.instructions[1].to_text(), "EXEC \"run\" TO text/plain AS \"id\"");
    assert_eq!(Arg::Int(i64::MIN).to_text(), "-9223372036854775808");
    assert_eq!(Arg::Int(0).to_text(), "0");
    assert!(Arg::Int(42).same_text("42"));
    assert!(Arg::Str("a".into()).same_text("a"));
    assert!(!Arg::Str("a".into()).same_text("b"));
}

#[test]
fn path_patterns_become_regular_expressions() {
    assert_eq!(path_regex_of("[SEC]"), r"\[ ?SEC ?\]");
    assert_eq!(path_regex_of("[...FOO...] LINE$"), r"\[ ?[^]]*FOO[^]]* ?\] LINE$");
    assert_eq!(path_regex_of("a..b"), "a..b");
    assert_eq!(path_regex_of("...."), "[^]]*.");
}

#[test]
fn expansion_is_one_pass() {
    let mut ctx = Context::default();
    ctx.push("name", "stack".to_string());
    ctx.push("other", "$name".to_string());
    let mut node = Node::new_line("a<b>&c \\m");
    node.marker = Some(">".to_string());
    node.add_prop("name", "prop".to_string());
    node.add_prop("loop", "\\v".to_string());
    let escaped = LangSettings::default();
    let raw = LangSettings { is_unescaped_value: true, ..LangSettings::default() };
    assert_eq!(replace("plain", &ctx, &node, &escaped), "plain");
    assert_eq!(replace("\\v", &ctx, &node, &escaped), "a&lt;b&gt;&amp;c \\m");
    assert_eq!(replace("\\v", &ctx, &node, &raw), "a<b>&c \\m");
    assert_eq!(replace("[\\m]\\n\\\"", &ctx, &node, &escaped), "[>]\n\"");
    // a property wins over a stack of the same name
    assert_eq!(replace("$name!", &ctx, &node, &escaped), "prop!");
    // what was put in is not expanded again
    assert_eq!(replace("$other $loop", &ctx, &node, &escaped), "$name \\v");
    assert_eq!(replace("$none \\x $", &ctx, &node, &escaped), "$none \\x $");
}

#[test]
fn every_instruction_does_what_the_table_says() {
    let lang = Lang::new(
        "RULES FOR t PRODUCE text/plain\n\
         COMPILE RULES:\n\
         LINE$\n\
         \x20 PUSH a \"1\"\n\
         \x20 PUSH a \"2\"\n\
         \x20 PUSH b a\n\
         \x20 PUSH b PROP key\n\
         \x20 PUSH b PROP missing\n\
         \x20 SET a \"3\"\n\
         \x20 SET new \"n\"\n\
         \x20 WRITE a\n\
         \x20 WRITE \"-\"\n\
         \x20 WRITEALL b\n\
         \x20 WRITE \"-\"\n\
         \x20 WRITEALL a \", \"\n\
         \x20 SWAP a b\n\
         \x20 WRITE \"-\"\n\
         \x20 WRITEALL a\n\
         \x20 POP b\n\
         \x20 DRAIN a\n\
         \x20 PUSH src \"s:$key\"\n\
         \x20 POP PROP key\n\
         \x20 NOOP\n\
         \x20 YIELD\n\
         \x20 WRITE \"after\"\n",
    )
    .unwrap();
    let (instructions, settings) = lang.get_instructions("COMPILE", "LINE");
    let mut ctx = Context::default();
    let mut deps = Vec::new();
    let mut node = Node::new_line("v");
    node.add_prop("key", "K".to_string());
    let mut pc = 0;
    let out = lang
        .evaluate(&instructions, &mut pc, &mut ctx, &mut deps, &mut node, &settings)
        .unwrap();
    assert_eq!(out, "3-2K-1, 3-2K");
    assert_eq!(pc, 21);
    assert_eq!(ctx.stack("a").unwrap(), &Vec::<String>::new());
    assert_eq!(ctx.stack("b").unwrap(), &["1".to_string()]);
    assert_eq!(ctx.stack("new").unwrap(), &["n".to_string()]);
    assert_eq!(ctx.top("src"), Some(&"s:K".to_string()));
    assert_eq!(
        node.props,
        Some(vec![("src".to_string(), "s:K".to_string())])
    );
    let out = lang
        .evaluate(&instructions, &mut pc, &mut ctx, &mut deps, &mut node, &settings)
        .unwrap();
    assert_eq!(out, "after");
    assert_eq!(pc, 22);
    assert!(deps.is_empty());
}

#[test]
fn exec_emits_a_dependency_once() {
    let lang = Lang::new(
        "RULES FOR t PRODUCE text/plain\n\
         PREPROCESS RULES:\n\
         [...]$\n\
         \x20 EXEC \"run \\m\" TO \"$id.out\" AS \"$id\"\n\
         \x20 EXEC \"run \\m\" TO \"$id.out\" AS \"$id\"\n\
         \x20 EXEC \"date\" TO text/plain AS \"date\"\n",
    )
    .unwrap();
    let (instructions, settings) = lang.get_instructions("PREPROCESS", "[]");
    let mut ctx = Context::default();
    let mut deps = Vec::new();
    let mut node = NodeBuilder::block(">")
        .add_prop(("id".into(), "x".into()))
        .children(vec![Node::new_line("a"), Node::ellipsis(), Node::new_line("b")])
        .done();
    let mut pc = 0;
    lang.evaluate(&instructions, &mut pc, &mut ctx, &mut deps, &mut node, &settings)
        .unwrap();
    assert_eq!(
        deps,
        vec![
            Dependency::Exec {
                id: "x".to_string(),
                cmd: "run >".to_string(),
                input: Some("a\nb".to_string()),
                artifact: ExecArtifact::Path("x.out".to_string()),
            },
            Dependency::Exec {
                id: "date".to_string(),
                cmd: "date".to_string(),
                input: Some("a\nb".to_string()),
                artifact: ExecArtifact::Stdout("text/plain".to_string()),
            },
        ]
    );
}

#[test]
fn the_context_is_told_the_node_and_its_position() {
    let mut ctx = Context::default();
    assert_eq!(ctx.parent, None);
    assert_eq!(ctx.index, 0);
    ctx.push("indent", String::from("  "));
    ctx.set_parent("[ROOT]/[SEC]");
    ctx.set_index(3);
    assert_eq!(ctx.parent, Some(String::from("[ROOT]/[SEC]")));
    assert_eq!(ctx.index, 3);
    assert_eq!(ctx.top("indent"), Some(&String::from("  ")));
}
