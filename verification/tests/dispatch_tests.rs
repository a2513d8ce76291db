use tana_edge::dispatch::{
    choose_source_form, http_status, next_phase, no_entry_response, rewrite_source, select_entry,
    EntryPoint, Method, Phase, SourceForm,
};

#[test]
fn import_line_rewritten_to_shim_call() {
    assert_eq!(
        rewrite_source("import {data} from \"tana/data\";"),
        "const {data} = __tanaImport('tana/data');"
    );
}

#[test]
fn import_line_variants_rewritten() {
    // Single quotes, no semicolon.
    assert_eq!(
        rewrite_source("import {tx} from 'tana/tx'"),
        "const {tx} = __tanaImport('tana/tx');"
    );
    // Leading and trailing whitespace, several names.
    assert_eq!(
        rewrite_source("   import { block , console }  from  \"tana/block\";  "),
        "const {block , console} = __tanaImport('tana/block');"
    );
    // A space between the closing quote and the semicolon breaks the form:
    // the line passes through unchanged.
    assert_eq!(
        rewrite_source("import {data} from \"tana/data\" ;"),
        "import {data} from \"tana/data\" ;"
    );
}

#[test]
fn non_tana_import_passes_through() {
    let line = "import {x} from \"other/mod\";";
    assert_eq!(rewrite_source(line), line);
}

#[test]
fn export_keyword_stripped() {
    assert_eq!(
        rewrite_source("export function Get(req) {"),
        "function Get(req) {"
    );
    assert_eq!(rewrite_source("  export   const x = 1;"), "  const x = 1;");
}

#[test]
fn plain_lines_unchanged() {
    assert_eq!(rewrite_source("const x = 1;"), "const x = 1;");
    assert_eq!(rewrite_source(""), "");
    // `export` not followed by whitespace is not the keyword form.
    assert_eq!(rewrite_source("exports.foo = 1;"), "exports.foo = 1;");
}

#[test]
fn whole_source_rewritten_line_by_line() {
    let src = "import {data} from \"tana/data\";\nexport async function Get(req) {\n  return {status: 200};\n}";
    let expected = "const {data} = __tanaImport('tana/data');\nasync function Get(req) {\n  return {status: 200};\n}";
    assert_eq!(rewrite_source(src), expected);
}

#[test]
fn entry_point_must_match_method() {
    assert_eq!(select_entry(Method::Get, true, false), Some(EntryPoint::Get));
    assert_eq!(select_entry(Method::Post, true, true), Some(EntryPoint::Post));
    // A GET-only contract invoked via POST has no matching entry point.
    assert_eq!(select_entry(Method::Post, true, false), None);
    assert_eq!(select_entry(Method::Get, false, true), None);
}

#[test]
fn missing_entry_yields_fixed_500() {
    let r = no_entry_response();
    assert_eq!(r.status, 500);
    assert_eq!(r.message, "No Get or Post function exported");
}

#[test]
fn precompiled_form_preferred() {
    assert_eq!(choose_source_form(true, true), Some(SourceForm::Precompiled));
    assert_eq!(choose_source_form(true, false), Some(SourceForm::Precompiled));
    assert_eq!(choose_source_form(false, true), Some(SourceForm::Source));
    assert_eq!(choose_source_form(false, false), None);
}

#[test]
fn http_status_falls_back_to_200() {
    assert_eq!(http_status(Some(404)), 404);
    assert_eq!(http_status(Some(500)), 500);
    assert_eq!(http_status(Some(99)), 200);
    assert_eq!(http_status(Some(1000)), 200);
    assert_eq!(http_status(None), 200);
}

#[test]
fn lifecycle_moves_forward_only() {
    assert_eq!(next_phase(Phase::Created, true), Some(Phase::CapabilitiesBound));
    assert_eq!(
        next_phase(Phase::CapabilitiesBound, true),
        Some(Phase::ModulesBootstrapped)
    );
    assert_eq!(
        next_phase(Phase::ModulesBootstrapped, true),
        Some(Phase::SourceLoaded)
    );
    assert_eq!(next_phase(Phase::SourceLoaded, true), Some(Phase::Compiled));
    assert_eq!(next_phase(Phase::SourceLoaded, false), Some(Phase::EntryInvoked));
    assert_eq!(next_phase(Phase::Compiled, true), Some(Phase::EntryInvoked));
    assert_eq!(next_phase(Phase::EntryInvoked, true), Some(Phase::AsyncDrained));
    assert_eq!(
        next_phase(Phase::AsyncDrained, true),
        Some(Phase::ResultExtracted)
    );
    assert_eq!(next_phase(Phase::ResultExtracted, true), None);
}
