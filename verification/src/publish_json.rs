use vstd::prelude::*;

use crate::presenter::{
    publish_event_name, publish_event_name_text, EcosystemPresentation, PublishProgressEvent, PublishProgressPackage,
    PublishRunMode,
};
use crate::text::views;

verus! {

broadcast use vstd::string::group_string_axioms;

/// A value of a publish progress JSON event.
pub enum JsonField {
    Text(String),
    Flag(bool),
    Count(usize),
    Texts(Vec<String>),
    /// An object whose values are all text, keys in order.
    Object(Vec<(&'static str, String)>),
}

/// A JSON field as a mathematical value.
pub enum FieldModel {
    Text(Seq<char>),
    Flag(bool),
    Count(nat),
    Texts(Seq<Seq<char>>),
    Object(Seq<(Seq<char>, Seq<char>)>),
}

pub open spec fn object_model(o: Seq<(&'static str, String)>) -> Seq<(Seq<char>, Seq<char>)> {
    o.map_values(|e: (&'static str, String)| (e.0@, e.1@))
}

pub open spec fn field_model(f: JsonField) -> FieldModel {
    match f {
        JsonField::Text(s) => FieldModel::Text(s@),
        JsonField::Flag(b) => FieldModel::Flag(b),
        JsonField::Count(n) => FieldModel::Count(n as nat),
        JsonField::Texts(v) => FieldModel::Texts(views(v@)),
        JsonField::Object(o) => FieldModel::Object(object_model(o@)),
    }
}

/// The name and fields of a publish progress JSON event (besides its
/// sequence number and event name, which the writer adds).
pub struct PublishEventJson {
    pub name: &'static str,
    pub fields: Vec<(&'static str, JsonField)>,
}

pub open spec fn fields_model(fs: Seq<(&'static str, JsonField)>) -> Seq<(Seq<char>, FieldModel)> {
    fs.map_values(|e: (&'static str, JsonField)| (e.0@, field_model(e.1)))
}

/// The name of a run mode in JSON.
pub open spec fn run_mode_json(mode: PublishRunMode) -> Seq<char> {
    match mode {
        PublishRunMode::Release => "release"@,
        PublishRunMode::Placeholder => "placeholder"@,
    }
}

/// A package in JSON: its id, name, version, ecosystem and registry.
pub open spec fn package_json(p: PublishProgressPackage) -> FieldModel {
    FieldModel::Object(seq![
        ("package_id"@, p.package_id@),
        ("package_name"@, p.package_name@),
        ("version"@, p.version@),
        ("ecosystem"@, p.ecosystem_label@),
        ("registry"@, p.registry@),
    ])
}

/// The labels of the ecosystems.
pub open spec fn ecosystem_labels(es: Seq<EcosystemPresentation>) -> Seq<Seq<char>> {
    es.map_values(|e: EcosystemPresentation| e.label@)
}

/// The fields of the JSON event that reports a publish event.
pub open spec fn publish_event_fields(e: PublishProgressEvent) -> Seq<(Seq<char>, FieldModel)> {
    match e {
        PublishProgressEvent::RunStarted { mode, dry_run, total, ecosystems } => seq![
            ("mode"@, FieldModel::Text(run_mode_json(mode))),
            ("publish_dry_run"@, FieldModel::Flag(dry_run)),
            ("total"@, FieldModel::Count(total as nat)),
            ("ecosystems"@, FieldModel::Texts(ecosystem_labels(ecosystems@))),
        ],
        PublishProgressEvent::RegistryCheckStarted(p) => seq![("package"@, package_json(p))],
        PublishProgressEvent::PackageStarted(p) => seq![("package"@, package_json(p))],
        PublishProgressEvent::PackageSkipped { package, message } => seq![
            ("package"@, package_json(package)),
            ("message"@, FieldModel::Text(message@)),
        ],
        PublishProgressEvent::PackagePlanned(p) => seq![("package"@, package_json(p))],
        PublishProgressEvent::PackagePublished(p) => seq![("package"@, package_json(p))],
        PublishProgressEvent::PackageFailed { package, message } => seq![
            ("package"@, package_json(package)),
            ("message"@, FieldModel::Text(message@)),
        ],
        PublishProgressEvent::RunFinished { mode, total, published, skipped, failed } => seq![
            ("mode"@, FieldModel::Text(run_mode_json(mode))),
            ("total"@, FieldModel::Count(total as nat)),
            ("published"@, FieldModel::Count(published as nat)),
            ("skipped"@, FieldModel::Count(skipped as nat)),
            ("failed"@, FieldModel::Count(failed as nat)),
        ],
    }
}

fn mode_json(mode: PublishRunMode) -> (r: String)
    ensures
        r@ == run_mode_json(mode),
{
    match mode {
        PublishRunMode::Release => "release".to_string(),
        PublishRunMode::Placeholder => "placeholder".to_string(),
    }
}

fn package_fields(p: &PublishProgressPackage) -> (r: JsonField)
    ensures
        field_model(r) == package_json(*p),
{
    let o: Vec<(&'static str, String)> = vec![
        ("package_id", p.package_id.clone()),
        ("package_name", p.package_name.clone()),
        ("version", p.version.clone()),
        ("ecosystem", p.ecosystem_label.clone()),
        ("registry", p.registry.clone()),
    ];
    proof {
        reveal_strlit("package_id");
        reveal_strlit("package_name");
        reveal_strlit("version");
        reveal_strlit("ecosystem");
        reveal_strlit("registry");
    }
    assert(object_model(o@) =~= seq![
        ("package_id"@, p.package_id@),
        ("package_name"@, p.package_name@),
        ("version"@, p.version@),
        ("ecosystem"@, p.ecosystem_label@),
        ("registry"@, p.registry@),
    ]);
    JsonField::Object(o)
}

fn labels(es: &Vec<EcosystemPresentation>) -> (r: Vec<String>)
    ensures
        views(r@) == ecosystem_labels(es@),
{
    let mut out: Vec<String> = Vec::new();
    let mut i: usize = 0;
    while i < es.len()
        invariant
            i <= es@.len(),
            views(out@) == ecosystem_labels(es@.take(i as int)),
        decreases es@.len() - i,
    {
        let ghost before = out@;
        let l = es[i].label.clone();
        out.push(l);
        proof {
            assert(views(out@) =~= views(before).push(es@[i as int].label@));
            assert(ecosystem_labels(es@.take(i + 1)) =~= ecosystem_labels(es@.take(i as int)).push(es@[i as int].label@));
        }
        i = i + 1;
    }
    assert(es@.take(es@.len() as int) =~= es@);
    out
}

/// The JSON event that reports a publish event: its name and its fields.
pub fn publish_event_json(event: &PublishProgressEvent) -> (r: PublishEventJson)
    ensures
        r.name@ == publish_event_name_text(*event),
        fields_model(r.fields@) == publish_event_fields(*event),
{
    let name = publish_event_name(event);
    proof {
        reveal_strlit("mode");
        reveal_strlit("publish_dry_run");
        reveal_strlit("total");
        reveal_strlit("ecosystems");
        reveal_strlit("package");
        reveal_strlit("message");
        reveal_strlit("published");
        reveal_strlit("skipped");
        reveal_strlit("failed");
    }
    let fields: Vec<(&'static str, JsonField)> = match event {
        PublishProgressEvent::RunStarted { mode, dry_run, total, ecosystems } => vec![
            ("mode", JsonField::Text(mode_json(*mode))),
            ("publish_dry_run", JsonField::Flag(*dry_run)),
            ("total", JsonField::Count(*total)),
            ("ecosystems", JsonField::Texts(labels(ecosystems))),
        ],
        PublishProgressEvent::RegistryCheckStarted(p) => vec![("package", package_fields(p))],
        PublishProgressEvent::PackageStarted(p) => vec![("package", package_fields(p))],
        PublishProgressEvent::PackageSkipped { package, message } => vec![
            ("package", package_fields(package)),
            ("message", JsonField::Text(message.clone())),
        ],
        PublishProgressEvent::PackagePlanned(p) => vec![("package", package_fields(p))],
        PublishProgressEvent::PackagePublished(p) => vec![("package", package_fields(p))],
        PublishProgressEvent::PackageFailed { package, message } => vec![
            ("package", package_fields(package)),
            ("message", JsonField::Text(message.clone())),
        ],
        PublishProgressEvent::RunFinished { mode, total, published, skipped, failed } => vec![
            ("mode", JsonField::Text(mode_json(*mode))),
            ("total", JsonField::Count(*total)),
            ("published", JsonField::Count(*published)),
            ("skipped", JsonField::Count(*skipped)),
            ("failed", JsonField::Count(*failed)),
        ],
    };
    assert(fields_model(fields@) =~= publish_event_fields(*event));
    PublishEventJson { name, fields }
}

} // verus!
