use handlebars_iron::Source;
use handlebars_iron::{
    HandlebarsEngine, MemorySource, RenderError, SourceError, Template, TemplateSource,
};

fn data(json: &str) -> serde_json::Value {
    serde_json::from_str(json).unwrap()
}

fn memory(pairs: &[(&str, &str)]) -> MemorySource {
    let mut m = MemorySource::new();
    for (name, text) in pairs {
        m.insert(name.to_string(), text.to_string());
    }
    m
}

#[test]
fn memory_source_renders() {
    let mut hbse = HandlebarsEngine::new();
    hbse.add(TemplateSource::Memory(memory(&[("memo", "<b>{{v}}</b>")])));
    assert!(hbse.reload(&Vec::new()).is_ok());
    assert_eq!(hbse.render("memo", &data(r#"{"v": 1}"#)).unwrap(), "<b>1</b>");
}

#[test]
fn memory_insert_replaces_same_name() {
    let mut hbse = HandlebarsEngine::new();
    hbse.add(TemplateSource::Memory(memory(&[("a", "{{#if x}}broken"), ("a", "fixed")])));
    assert!(hbse.reload(&Vec::new()).is_ok());
    assert_eq!(hbse.render("a", &data("{}")).unwrap(), "fixed");
}

#[test]
fn later_source_wins() {
    let mut hbse = HandlebarsEngine::new();
    hbse.add(TemplateSource::Memory(memory(&[("x", "A"), ("y", "only A")])));
    hbse.add(TemplateSource::Memory(memory(&[("x", "B")])));
    assert!(hbse.reload(&Vec::new()).is_ok());
    assert_eq!(hbse.render("x", &data("{}")).unwrap(), "B");
    assert_eq!(hbse.render("y", &data("{}")).unwrap(), "only A");
}

#[test]
fn failed_reload_keeps_previous_cache() {
    let mut hbse = HandlebarsEngine::new();
    hbse.add(TemplateSource::Memory(memory(&[("page", "Hello {{who}}")])));
    assert!(hbse.reload(&Vec::new()).is_ok());
    let before = hbse.render("page", &data(r#"{"who": "you"}"#)).unwrap();

    hbse.add(TemplateSource::Memory(memory(&[("broken", "{{#each items}}no end")])));
    match hbse.reload(&Vec::new()) {
        Err(e) => {
            assert_eq!(e.source_index, 1);
            match e.error {
                SourceError::Compile { name, .. } => assert_eq!(name, "broken"),
                _ => panic!("expected Compile"),
            }
        }
        Ok(()) => panic!("expected failure"),
    }
    assert!(hbse.has_template("page"));
    assert!(!hbse.has_template("broken"));
    assert_eq!(hbse.registry.get_templates().len(), 1);
    assert_eq!(hbse.render("page", &data(r#"{"who": "you"}"#)).unwrap(), before);
}

#[test]
fn inline_render_needs_no_reload() {
    let hbse = HandlebarsEngine::new();
    assert_eq!(hbse.render_inline("{{x}}", &data(r#"{"x": "v"}"#)).unwrap(), "v");
    assert_eq!(hbse.registry.get_templates().len(), 0);
}

#[test]
fn inline_render_leaves_cache_alone() {
    let mut hbse = HandlebarsEngine::new();
    hbse.add(TemplateSource::Memory(memory(&[("a", "A")])));
    assert!(hbse.reload(&Vec::new()).is_ok());
    assert_eq!(hbse.render_inline("{{x}}!", &data(r#"{"x": "v"}"#)).unwrap(), "v!");
    assert_eq!(hbse.registry.get_templates().len(), 1);
    assert!(hbse.has_template("a"));
}

#[test]
fn inline_compile_error() {
    let hbse = HandlebarsEngine::new();
    match hbse.render_inline("{{#if x}}unclosed", &data("{}")) {
        Err(RenderError::Compile { cause }) => assert!(!cause.is_empty()),
        _ => panic!("expected Compile"),
    }
}

#[test]
fn render_error_in_strict_mode() {
    let mut hbse = HandlebarsEngine::new();
    hbse.add(TemplateSource::Memory(memory(&[("strict", "{{missing}}")])));
    hbse.handlebars_mut().set_strict_mode(true);
    assert!(hbse.reload(&Vec::new()).is_ok());
    match hbse.render("strict", &data("{}")) {
        Err(RenderError::Render { cause }) => assert!(!cause.is_empty()),
        _ => panic!("expected Render"),
    }
    match hbse.render_inline("{{missing}}", &data("{}")) {
        Err(RenderError::Render { .. }) => {}
        _ => panic!("expected Render"),
    }
}

#[test]
fn helpers_survive_reload() {
    let mut hbse = HandlebarsEngine::new();
    hbse.add(TemplateSource::Memory(memory(&[("h", "[{{shout}}]")])));
    hbse.handlebars_mut().register_helper(
        "shout",
        Box::new(
            |_: &handlebars::Helper,
             _: &handlebars::Handlebars,
             _: &handlebars::Context,
             _: &mut handlebars::RenderContext,
             out: &mut dyn handlebars::Output|
             -> handlebars::HelperResult {
                out.write("HEY")?;
                Ok(())
            },
        ),
    );
    assert!(hbse.reload(&Vec::new()).is_ok());
    assert!(hbse.reload(&Vec::new()).is_ok());
    assert_eq!(hbse.render("h", &data("{}")).unwrap(), "[HEY]");
}

#[test]
fn engine_from_existing_registry() {
    let mut reg = handlebars::Handlebars::new();
    reg.register_template_string("pre", "pre").unwrap();
    let mut hbse = HandlebarsEngine::from(reg);
    assert!(hbse.has_template("pre"));
    hbse.add(TemplateSource::Memory(memory(&[("m", "m")])));
    assert!(hbse.reload(&Vec::new()).is_ok());
    assert!(!hbse.has_template("pre"));
    assert!(hbse.has_template("m"));
}

#[test]
fn render_page_by_name_or_content() {
    let mut hbse = HandlebarsEngine::new();
    hbse.add(TemplateSource::Memory(memory(&[("index", "{{title}}!")])));
    assert!(hbse.reload(&Vec::new()).is_ok());
    let value = data(r#"{"title": "Handlebars on Iron"}"#);

    let named = Template::new("index", value.clone());
    assert_eq!(hbse.render_page(&named).unwrap().unwrap(), "Handlebars on Iron!");

    let inline = Template::with("<i>{{title}}</i>", value.clone());
    assert_eq!(hbse.render_page(&inline).unwrap().unwrap(), "<i>Handlebars on Iron</i>");

    let empty = Template { name: None, content: None, value };
    assert!(hbse.render_page(&empty).is_none());

    let missing = Template::new("nope", data("{}"));
    match hbse.render_page(&missing) {
        Some(Err(RenderError::NotFound { name })) => assert_eq!(name, "nope"),
        _ => panic!("expected NotFound"),
    }
}

#[test]
fn test_resp_set() {
    let mut data = std::collections::BTreeMap::new();
    data.insert("title".to_owned(), "Handlebars on Iron".to_owned());
    let h = Template::new("index", serde_json::to_value(&data).unwrap());

    assert_eq!(h.name.unwrap(), "index".to_string());
    assert_eq!(
        h.value
            .as_object()
            .unwrap()
            .get(&"title".to_string())
            .unwrap()
            .as_str()
            .unwrap(),
        "Handlebars on Iron"
    );
}

#[test]
fn test_resp_set2() {
    let mut data = std::collections::BTreeMap::new();
    data.insert("title".to_owned(), "Handlebars on Iron".to_owned());
    let h = Template::with("{{title}}", serde_json::to_value(&data).unwrap());

    assert_eq!(h.content.unwrap(), "{{title}}".to_string());
    assert_eq!(
        h.value
            .as_object()
            .unwrap()
            .get(&"title".to_string())
            .unwrap()
            .as_str()
            .unwrap(),
        "Handlebars on Iron"
    );
}

#[test]
fn test_register_helper() {
    let mut hbs = HandlebarsEngine::new();
    let reg = hbs.handlebars_mut();
    reg.register_helper(
        "ignore",
        Box::new(
            |_: &handlebars::Helper,
             _: &handlebars::Handlebars,
             _: &handlebars::Context,
             _: &mut handlebars::RenderContext,
             _: &mut dyn handlebars::Output|
             -> handlebars::HelperResult { Ok(()) },
        ),
    );
}

#[test]
fn failing_load_keeps_other_templates() {
    let mut reg = handlebars::Handlebars::new();
    reg.register_template_string("keep", "kept").unwrap();
    let src = memory(&[("bad", "{{#if x}}open")]);
    match src.load(&mut reg, &Vec::new()) {
        Err(SourceError::Compile { name, .. }) => assert_eq!(name, "bad"),
        _ => panic!("expected Compile"),
    }
    assert!(reg.has_template("keep"));
    assert!(!reg.has_template("bad"));
    assert_eq!(reg.render("keep", &data("{}")).unwrap(), "kept");
}

#[test]
fn inline_page_that_does_not_compile() {
    let hbse = HandlebarsEngine::new();
    let page = Template::with("{{#each xs}}no end", data("{}"));
    match hbse.render_page(&page) {
        Some(Err(RenderError::Compile { .. })) => {}
        _ => panic!("expected Compile"),
    }
}
