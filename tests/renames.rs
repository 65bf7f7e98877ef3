use cust_renames::{
    parse_expansion, probe_source, rename_in_line, split_lines, ExpandStep, FunctionRenames,
    ItemKind, MacroParsingBehavior, RenameTable,
};

const HELPERS: &str = "\n#define STRINGIFY(x) #x\n#define TOSTRING(x) STRINGIFY(x)\n#define RENAMED(from, to) \"RUST_RENAMED\" TOSTRING(from) TOSTRING(to)\n";

fn collector(prefix: &str, macros: &[&str]) -> FunctionRenames {
    let mut renames = FunctionRenames::new(prefix);
    for name in macros {
        assert_eq!(renames.will_parse_macro(name), MacroParsingBehavior::Default);
    }
    renames
}

fn expanded_with(macros: &[&str], output: &str) -> FunctionRenames {
    let mut renames = collector("cu", macros);
    assert_eq!(renames.expand(), ExpandStep::NeedsPreprocessing);
    renames.finish_expand(output);
    renames
}

#[test]
fn no_macros_means_no_preprocessing() {
    let mut renames = FunctionRenames::new("cu");
    assert!(!renames.is_expanded());
    assert_eq!(renames.expand(), ExpandStep::Ready);
    assert!(renames.is_expanded());
    let table = renames.get_rename_table().unwrap();
    assert_eq!(table.get_by_left("cuLaunch"), None);
    assert_eq!(table.get_by_right("cuLaunch"), None);
}

#[test]
fn names_without_prefix_are_not_recorded() {
    let renames = collector("cu", &["CUDA_VERSION", "cudaMalloc_x", "xcuInit", "c", ""]);
    // "cudaMalloc_x" starts with "cu" and is recorded; the others are not.
    let source = renames.probe_source("INC");
    let expected = format!("INC{HELPERS}RENAMED(_cudaMalloc_x, cudaMalloc_x)\n");
    assert_eq!(source, expected);
}

#[test]
fn no_matching_macros_yields_empty_table() {
    let mut renames = collector("cu", &["CUDA_API", "NVRTC_VERSION"]);
    assert_eq!(renames.expand(), ExpandStep::Ready);
    assert_eq!(renames.generated_link_name_override(ItemKind::Function, "CUDA_API"), None);
    assert_eq!(renames.generated_name_override(ItemKind::Function, "CUDA_API"), None);
}

#[test]
fn renamed_macro_round_trips() {
    let output = "# 1 \"expand_macros.c\"\nint cuLaunchKernel_v2(void);\n\"RUST_RENAMED\" \"_cuLaunch\" \"cuLaunchKernel_v2\"\n";
    let renames = expanded_with(&["cuLaunch"], output);
    assert_eq!(
        renames.generated_name_override(ItemKind::Function, "cuLaunchKernel_v2"),
        Some("cuLaunch".to_string())
    );
    assert_eq!(
        renames.generated_link_name_override(ItemKind::Function, "cuLaunch"),
        Some("cuLaunchKernel_v2".to_string())
    );
    assert_eq!(renames.generated_name_override(ItemKind::Function, "cuLaunch"), None);
    assert_eq!(renames.generated_link_name_override(ItemKind::Function, "cuLaunchKernel_v2"), None);
}

#[test]
fn self_expanding_macro_is_no_rename() {
    let renames = expanded_with(&["cuInit"], "\"RUST_RENAMED\" \"_cuInit\" \"cuInit\"\n");
    assert_eq!(renames.generated_link_name_override(ItemKind::Function, "cuInit"), None);
    assert_eq!(renames.generated_name_override(ItemKind::Function, "cuInit"), None);
}

#[test]
fn empty_macro_is_no_rename() {
    let renames = expanded_with(&["cuFlag"], "\"RUST_RENAMED\" \"_cuFlag\" \"\"\n");
    assert_eq!(renames.generated_link_name_override(ItemKind::Function, "cuFlag"), None);
    assert_eq!(renames.generated_name_override(ItemKind::Function, ""), None);
}

#[test]
fn other_item_kinds_get_no_override() {
    let output = "\"RUST_RENAMED\" \"_cuLaunch\" \"cuLaunchKernel_v2\"\n";
    let renames = expanded_with(&["cuLaunch"], output);
    for kind in [ItemKind::Module, ItemKind::Type, ItemKind::Var] {
        assert_eq!(renames.generated_link_name_override(kind, "cuLaunch"), None);
        assert_eq!(renames.generated_name_override(kind, "cuLaunchKernel_v2"), None);
    }
}

#[test]
fn table_is_computed_once() {
    let output = "\"RUST_RENAMED\" \"_cuLaunch\" \"cuLaunchKernel_v2\"\n";
    let mut renames = expanded_with(&["cuLaunch"], output);
    assert!(renames.is_expanded());
    assert_eq!(renames.expand(), ExpandStep::Ready);
    assert_eq!(renames.expand(), ExpandStep::Ready);
    // A name recorded late does not bring the preprocessor back.
    renames.will_parse_macro("cuCtxCreate");
    assert_eq!(renames.expand(), ExpandStep::Ready);
    assert_eq!(
        renames.generated_link_name_override(ItemKind::Function, "cuLaunch"),
        Some("cuLaunchKernel_v2".to_string())
    );
}

#[test]
fn duplicate_names_give_the_same_table() {
    let once = collector("cu", &["cuLaunch", "cuInit"]);
    let twice = collector("cu", &["cuLaunch", "cuInit", "cuLaunch"]);
    assert_eq!(
        twice.probe_source(""),
        format!("{HELPERS}RENAMED(_cuLaunch, cuLaunch)\nRENAMED(_cuInit, cuInit)\nRENAMED(_cuLaunch, cuLaunch)\n")
    );
    let line_a = "\"RUST_RENAMED\" \"_cuLaunch\" \"cuLaunchKernel_v2\"\n";
    let line_b = "\"RUST_RENAMED\" \"_cuInit\" \"cuInit_v2\"\n";
    let mut once = once;
    let mut twice = twice;
    once.expand();
    twice.expand();
    once.finish_expand(&format!("{line_a}{line_b}"));
    twice.finish_expand(&format!("{line_a}{line_b}{line_a}"));
    for name in ["cuLaunch", "cuInit", "cuLaunchKernel_v2", "cuInit_v2"] {
        assert_eq!(
            once.generated_link_name_override(ItemKind::Function, name),
            twice.generated_link_name_override(ItemKind::Function, name)
        );
        assert_eq!(
            once.generated_name_override(ItemKind::Function, name),
            twice.generated_name_override(ItemKind::Function, name)
        );
    }
    assert_eq!(
        twice.generated_name_override(ItemKind::Function, "cuInit_v2"),
        Some("cuInit".to_string())
    );
}

#[test]
fn probe_source_layout() {
    let source = probe_source("#include <cuda.h>", &vec!["cuA".to_string(), "cuB".to_string()]);
    assert_eq!(
        source,
        "#include <cuda.h>\n#define STRINGIFY(x) #x\n#define TOSTRING(x) STRINGIFY(x)\n#define RENAMED(from, to) \"RUST_RENAMED\" TOSTRING(from) TOSTRING(to)\nRENAMED(_cuA, cuA)\nRENAMED(_cuB, cuB)\n"
    );
    assert_eq!(probe_source("X", &vec![]), format!("X{HELPERS}"));
}

#[test]
fn lines_split_like_std() {
    let text = "a\r\nb\n\nc\r";
    let lines: Vec<String> = split_lines(text).iter().map(|l| l.iter().collect()).collect();
    let expected: Vec<String> = text.lines().map(|l| l.to_string()).collect();
    assert_eq!(lines, expected);
    assert!(split_lines("").is_empty());
    assert_eq!(split_lines("\n").len(), 1);
    assert_eq!(split_lines("x\n").len(), 1);
}

#[test]
fn marker_line_parsing() {
    let chars = |s: &str| s.chars().collect::<Vec<char>>();
    assert_eq!(
        rename_in_line(&chars("\"RUST_RENAMED\" \"_cuA\" \"cuA_v2\"")),
        Some(("cuA".to_string(), "cuA_v2".to_string()))
    );
    // Without the marker, or with only part of it, a line says nothing.
    assert_eq!(rename_in_line(&chars("\"_cuA\" \"cuA_v2\"")), None);
    assert_eq!(rename_in_line(&chars("\"RUST_RENAMED\"")), None);
    assert_eq!(rename_in_line(&chars("RUST_RENAMED \"_cuA\" \"cuA_v2\"")), None);
    // No space after the first name.
    assert_eq!(rename_in_line(&chars("\"RUST_RENAMED\" \"_cuA\"")), None);
    // An empty first name.
    assert_eq!(rename_in_line(&chars("\"RUST_RENAMED\"  \"cuA_v2\"")), None);
    // Everything after the first space is the expansion.
    assert_eq!(
        rename_in_line(&chars("\"RUST_RENAMED\" \"_cuB\" \"cuB_v2 extra\"")),
        Some(("cuB".to_string(), "cuB_v2 extra".to_string()))
    );
}

#[test]
fn unrelated_output_is_ignored() {
    let output = "/* comment */\n\n\"RUST_RENAMED\"\nstatic const char *s = \"RUST_RENAMED\";\n  \"RUST_RENAMED\" \"_cuX\" \"cuX_v2\"\n\"RUST_RENAMED\" \"_cuY\" \"cuY_v3\"\r\n";
    let table = parse_expansion(output);
    assert_eq!(table.get_by_left("cuX"), None);
    assert_eq!(table.get_by_left("cuY"), Some("cuY_v3".to_string()));
    assert_eq!(table.get_by_right("cuY_v3"), Some("cuY".to_string()));
}

#[test]
fn earlier_line_wins_on_conflict() {
    let output = "\"RUST_RENAMED\" \"_cuX\" \"first\"\n\"RUST_RENAMED\" \"_cuX\" \"second\"\n\"RUST_RENAMED\" \"_cuZ\" \"first\"\n";
    let table = parse_expansion(output);
    assert_eq!(table.get_by_left("cuX"), Some("first".to_string()));
    assert_eq!(table.get_by_right("first"), Some("cuX".to_string()));
    assert_eq!(table.get_by_right("second"), None);
    assert_eq!(table.get_by_left("cuZ"), None);
}

#[test]
fn rename_table_keeps_a_bijection() {
    let mut table = RenameTable::new();
    table.insert("a".to_string(), "1".to_string());
    table.insert("b".to_string(), "2".to_string());
    assert_eq!(table.get_by_left("a"), Some("1".to_string()));
    assert_eq!(table.get_by_right("2"), Some("b".to_string()));
    table.insert("a".to_string(), "2".to_string());
    assert_eq!(table.get_by_left("a"), Some("2".to_string()));
    assert_eq!(table.get_by_left("b"), None);
    assert_eq!(table.get_by_right("1"), None);
    assert_eq!(table.get_by_right("2"), Some("a".to_string()));
}
