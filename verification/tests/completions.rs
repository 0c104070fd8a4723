use java_lsp::completion::{complete_vars, CompletionItem, CompletionItemKind};
use java_lsp::dto::JType;
use java_lsp::position::{symbols_to_document_symbols, PositionSymbol, SymbolInformation, SymbolKind};
use java_lsp::treesitter::{Point, Range};
use java_lsp::variable::LocalVariable;

fn range(row: usize, start: usize, end: usize) -> Range {
    Range {
        start_byte: start,
        end_byte: end,
        start_point: Point { row, column: start },
        end_point: Point { row, column: end },
    }
}

#[test]
fn completes_variables_and_functions() {
    let vars = vec![
        LocalVariable { level: 1, jtype: JType::Int, name: "count".to_string(), is_fun: false, range: range(1, 4, 9) },
        LocalVariable {
            level: 0,
            jtype: JType::Class("java.lang.String".to_string()),
            name: "name".to_string(),
            is_fun: true,
            range: range(0, 0, 4),
        },
    ];
    let items = complete_vars(&vars);
    assert_eq!(
        items,
        vec![
            CompletionItem { label: "count".to_string(), detail: "int".to_string(), kind: CompletionItemKind::Variable },
            CompletionItem { label: "name".to_string(), detail: "String".to_string(), kind: CompletionItemKind::Function },
        ]
    );
    assert!(complete_vars(&[]).is_empty());
}

#[test]
fn document_symbols_skip_bare_ranges() {
    let symbols = vec![
        PositionSymbol::Range(range(0, 0, 3)),
        PositionSymbol::Symbol { range: range(1, 0, 5), name: "Test".to_string(), kind: "class_declaration".to_string() },
        PositionSymbol::Symbol { range: range(2, 2, 6), name: "run".to_string(), kind: "method_declaration".to_string() },
        PositionSymbol::Symbol { range: range(3, 2, 5), name: "a".to_string(), kind: "formal_parameter".to_string() },
        PositionSymbol::Symbol { range: range(4, 2, 5), name: "b".to_string(), kind: "variable_declarator".to_string() },
    ];
    let out = symbols_to_document_symbols(symbols);
    assert_eq!(
        out,
        vec![
            SymbolInformation { name: "Test".to_string(), kind: SymbolKind::Class, range: range(1, 0, 5) },
            SymbolInformation { name: "run".to_string(), kind: SymbolKind::Method, range: range(2, 2, 6) },
            SymbolInformation { name: "a".to_string(), kind: SymbolKind::Field, range: range(3, 2, 5) },
            SymbolInformation { name: "b".to_string(), kind: SymbolKind::Field, range: range(4, 2, 5) },
        ]
    );
}
