use angularjs_lsp::handler::code_lens::{CodeLens, CodeLensHandler, OPEN_LOCATION_COMMAND};
use angularjs_lsp::index::Index;
use angularjs_lsp::model::builder::SymbolBuilder;
use angularjs_lsp::model::scope::HtmlControllerScope;
use angularjs_lsp::model::span::Span;
use angularjs_lsp::model::symbol::SymbolKind;
use angularjs_lsp::model::template::{BindingSource, ComponentTemplateUrl, TemplateBinding};

const JS: &str = "file:///app/app.js";
const HTML: &str = "file:///app/views/main.html";

fn index_with_route() -> Index {
    let mut index = Index::new();
    let ctrl = SymbolBuilder::new("MainCtrl".to_string(), SymbolKind::Controller, JS.to_string())
        .definition_span(Span::new(10, 2, 20, 3))
        .name_span(Span::new(10, 14, 10, 22))
        .build();
    index.definitions.add_definition(ctrl);
    index.templates.add_template_binding(TemplateBinding {
        template_path: "views/main.html".to_string(),
        controller_name: "MainCtrl".to_string(),
        source: BindingSource::RouteProvider,
        binding_uri: JS.to_string(),
        binding_line: 5,
    });
    index
}

fn titles(lenses: &[CodeLens]) -> Vec<&str> {
    lenses.iter().map(|l| l.title.as_str()).collect()
}

#[test]
fn script_lenses_show_templates_and_bindings() {
    let index = index_with_route();
    let handler = CodeLensHandler::new(&index);
    let lenses = handler.code_lens(JS).expect("lenses");
    assert_eq!(titles(&lenses), vec!["Template: main.html (not resolved)", "$routeProvider: main.html -> MainCtrl"]);
    assert_eq!(lenses[0].line, 10);
    assert_eq!(lenses[0].command, "");
    assert!(lenses[0].locations.is_empty());
    assert_eq!(lenses[1].line, 5);
    assert_eq!(lenses[1].command, OPEN_LOCATION_COMMAND);
    assert_eq!(lenses[1].locations.len(), 1);
    assert_eq!(lenses[1].locations[0].uri, JS);
    assert_eq!(lenses[1].locations[0].range.start.line, 10);
    assert_eq!(lenses[1].locations[0].range.start.character, 2);
}

#[test]
fn template_lenses_show_where_they_are_bound_and_their_scopes() {
    let mut index = index_with_route();
    index.controllers.add_html_controller_scope(HtmlControllerScope {
        controller_name: "OtherCtrl".to_string(),
        alias: None,
        uri: HTML.to_string(),
        start_line: 3,
        end_line: 9,
    });
    let handler = CodeLensHandler::new(&index);
    let lenses = handler.code_lens(HTML).expect("lenses");
    assert_eq!(
        titles(&lenses),
        vec![
            "Bound from: $routeProvider in app.js",
            "Binded: MainCtrl",
            "ng-controller: OtherCtrl (not found)",
            "Template: main.html"
        ]
    );
    assert_eq!(lenses[0].locations[0].uri, JS);
    assert_eq!(lenses[0].locations[0].range.start.line, 5);
    assert_eq!(lenses[2].line, 3);
    assert_eq!(lenses[3].line, 3);
    assert_eq!(lenses[3].locations[0].uri, HTML);
}

#[test]
fn resolved_templates_open_the_template() {
    let mut index = index_with_route();
    index.mark_html_analyzed(HTML);
    let handler = CodeLensHandler::new(&index);
    let lenses = handler.code_lens(JS).expect("lenses");
    assert_eq!(lenses[0].title, "Template: main.html");
    assert_eq!(lenses[0].locations.len(), 1);
    assert_eq!(lenses[0].locations[0].uri, HTML);
    assert_eq!(lenses[1].locations.len(), 2);
    assert_eq!(lenses[1].locations[0].uri, HTML);
}

#[test]
fn component_templates_name_their_controller() {
    let mut index = Index::new();
    index.components.add_component_template_url(ComponentTemplateUrl {
        uri: "file:///app/card.js".to_string(),
        template_path: "views/card.html".to_string(),
        line: 4,
        col: 2,
        controller_name: None,
        controller_as: "$ctrl".to_string(),
    });
    let handler = CodeLensHandler::new(&index);
    let lenses = handler.code_lens("file:///app/views/card.html").expect("lenses");
    assert_eq!(titles(&lenses), vec!["Component: (inline) (as $ctrl)"]);
    assert_eq!(lenses[0].locations[0].uri, "file:///app/card.js");
    assert_eq!(lenses[0].locations[0].range.start.line, 4);
    let script = handler.code_lens("file:///app/card.js").expect("lenses");
    assert_eq!(titles(&script), vec!["Open template: card.html (not found)"]);
    assert!(handler.code_lens("file:///app/style.css").is_none());
    assert!(CodeLensHandler::new(&Index::new()).code_lens(JS).is_none());
}
