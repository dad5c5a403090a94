//! Relabelling the input files a JSON report names, so that it shows the
//! names the caller gave rather than the paths of temporary files.
use vstd::prelude::*;

verus! {

#[verifier::external_type_specification]
#[verifier::external_body]
pub struct ExJsonValue(serde_json::Value);

/// The content of a JSON value: numbers are kept as their text, objects as
/// maps from member names to values.
pub enum JsonTree {
    Null,
    Bool(bool),
    Number(Seq<char>),
    Text(Seq<char>),
    Array(Seq<JsonTree>),
    Object(Map<Seq<char>, JsonTree>),
}

/// What `serde_json` parses a text into, if it is JSON.
pub uninterp spec fn json_parse(text: Seq<char>) -> Option<JsonTree>;

/// The content of a `serde_json::Value`.
pub uninterp spec fn json_tree(value: serde_json::Value) -> JsonTree;

/// What `serde_json` writes for a value, if it can.
pub uninterp spec fn json_render(tree: JsonTree) -> Option<Seq<char>>;

/// `serde_json::from_str::<serde_json::Value>`: `None` exactly when the text
/// is not JSON; what it parses into is named, not stated.
#[verifier::external_body]
fn parse_json_value(text: &str) -> (r: Option<serde_json::Value>)
    ensures
        match r {
            Some(v) => json_parse(text@) == Some(json_tree(v)),
            None => json_parse(text@) is None,
        },
{
    serde_json::from_str::<serde_json::Value>(text).ok()
}

/// `serde_json::Value::get` with a member name: the member of an object,
/// `None` for a missing member or a value that is not an object.
#[verifier::external_body]
fn json_member<'a>(value: &'a serde_json::Value, key: &str) -> (r: Option<&'a serde_json::Value>)
    ensures
        match json_tree(*value) {
            JsonTree::Object(m) => if m.contains_key(key@) {
                r matches Some(x) && json_tree(*x) == m[key@]
            } else {
                r is None
            },
            _ => r is None,
        },
{
    value.get(key)
}

/// `serde_json::Value::is_object`.
#[verifier::external_body]
fn json_is_object(value: &serde_json::Value) -> (r: bool)
    ensures
        r == (json_tree(*value) is Object),
{
    value.is_object()
}

/// `value[outer][inner]` set to a string through `IndexMut`: on an object
/// whose member `outer` is an object, inserts (or replaces) member `inner`
/// of that object.
#[verifier::external_body]
fn json_set_nested_text(value: &mut serde_json::Value, outer: &str, inner: &str, text: &str)
    requires
        has_object_member(json_tree(*old(value)), outer@),
    ensures
        json_tree(*final(value)) == set_nested_text(json_tree(*old(value)), outer@, inner@, text@),
{
    value[outer][inner] = serde_json::Value::String(text.to_owned());
}

/// `serde_json::to_string` of a value, `None` where it reports an error.
#[verifier::external_body]
fn json_to_string(value: &serde_json::Value) -> (r: Option<String>)
    ensures
        match r {
            Some(s) => json_render(json_tree(*value)) == Some(s@),
            None => json_render(json_tree(*value)) is None,
        },
{
    serde_json::to_string(value).ok()
}

/// `t` is an object whose member `key` is an object.
pub open spec fn has_object_member(t: JsonTree, key: Seq<char>) -> bool {
    match t {
        JsonTree::Object(m) => m.contains_key(key) && m[key] is Object,
        _ => false,
    }
}

/// Member `inner` of object member `outer` set to the string `text`.
pub open spec fn set_nested_text(t: JsonTree, outer: Seq<char>, inner: Seq<char>, text: Seq<char>) -> JsonTree {
    match t {
        JsonTree::Object(m) => match m[outer] {
            JsonTree::Object(im) => JsonTree::Object(
                m.insert(outer, JsonTree::Object(im.insert(inner, JsonTree::Text(text)))),
            ),
            _ => t,
        },
        _ => t,
    }
}

/// The report with `files.old` and `files.new` set to the labels, when it
/// has a `files` object; otherwise the report as it is.
pub open spec fn relabel_tree(t: JsonTree, old_label: Seq<char>, new_label: Seq<char>) -> JsonTree {
    if has_object_member(t, "files"@) {
        set_nested_text(
            set_nested_text(t, "files"@, "old"@, old_label),
            "files"@,
            "new"@,
            new_label,
        )
    } else {
        t
    }
}

/// The relabelled report text: a report that is not JSON, or that cannot be
/// written back, is returned as it came.
pub open spec fn spec_rewrite_report(report: Seq<char>, old_label: Seq<char>, new_label: Seq<char>) -> Seq<char> {
    match json_parse(report) {
        None => report,
        Some(t) => match json_render(relabel_tree(t, old_label, new_label)) {
            Some(s) => s,
            None => report,
        },
    }
}

proof fn lemma_set_keeps_object_member(t: JsonTree, outer: Seq<char>, inner: Seq<char>, text: Seq<char>)
    requires
        has_object_member(t, outer),
    ensures
        has_object_member(set_nested_text(t, outer, inner, text), outer),
{
}

/// Relabels an already parsed report; `report_json` is what is returned
/// when the relabelled value cannot be written.
pub fn relabel_report_value(
    value: serde_json::Value,
    report_json: &str,
    old_label: &str,
    new_label: &str,
) -> (r: String)
    ensures
        r@ == (match json_render(relabel_tree(json_tree(value), old_label@, new_label@)) {
            Some(s) => s,
            None => report_json@,
        }),
{
    let mut value = value;
    let has_files = match json_member(&value, "files") {
        Some(files) => json_is_object(files),
        None => false,
    };
    assert(has_files == has_object_member(json_tree(value), "files"@));
    if has_files {
        let ghost t0 = json_tree(value);
        json_set_nested_text(&mut value, "files", "old", old_label);
        proof {
            lemma_set_keeps_object_member(t0, "files"@, "old"@, old_label@);
        }
        json_set_nested_text(&mut value, "files", "new", new_label);
    }
    match json_to_string(&value) {
        Some(s) => s,
        None => report_json.to_owned(),
    }
}

/// Sets `files.old` and `files.new` of a JSON report to the given labels.
/// A report that is not JSON is returned unchanged; one without a `files`
/// object is returned as `serde_json` writes it.
pub fn rewrite_report_file_labels(report_json: &str, old_label: &str, new_label: &str) -> (r: String)
    ensures
        r@ == spec_rewrite_report(report_json@, old_label@, new_label@),
{
    match parse_json_value(report_json) {
        Some(value) => relabel_report_value(value, report_json, old_label, new_label),
        None => report_json.to_owned(),
    }
}

/// Member `inner` of object member `outer`, if there is one.
pub open spec fn nested_member(t: JsonTree, outer: Seq<char>, inner: Seq<char>) -> Option<JsonTree> {
    match t {
        JsonTree::Object(m) => if m.contains_key(outer) {
            match m[outer] {
                JsonTree::Object(im) => if im.contains_key(inner) {
                    Some(im[inner])
                } else {
                    None
                },
                _ => None,
            }
        } else {
            None
        },
        _ => None,
    }
}

/// A report that is not JSON comes back unchanged.
pub proof fn lemma_unparsable_report_unchanged(report: Seq<char>, old_label: Seq<char>, new_label: Seq<char>)
    requires
        json_parse(report) is None,
    ensures
        spec_rewrite_report(report, old_label, new_label) == report,
{
}

/// After relabelling, `files.old` and `files.new` hold the labels.
pub proof fn lemma_relabel_sets_labels(t: JsonTree, old_label: Seq<char>, new_label: Seq<char>)
    requires
        has_object_member(t, "files"@),
    ensures
        nested_member(relabel_tree(t, old_label, new_label), "files"@, "old"@) == Some(
            JsonTree::Text(old_label),
        ),
        nested_member(relabel_tree(t, old_label, new_label), "files"@, "new"@) == Some(
            JsonTree::Text(new_label),
        ),
{
    reveal_strlit("old");
    reveal_strlit("new");
    assert("old"@ != "new"@) by {
        assert("old"@[0] != "new"@[0]);
    }
}

/// Relabelling again replaces the earlier labels: the result is the same as
/// relabelling once with the later labels.
pub proof fn lemma_relabel_last_labels_win(
    t: JsonTree,
    first_old: Seq<char>,
    first_new: Seq<char>,
    old_label: Seq<char>,
    new_label: Seq<char>,
)
    ensures
        relabel_tree(relabel_tree(t, first_old, first_new), old_label, new_label) == relabel_tree(
            t,
            old_label,
            new_label,
        ),
{
    reveal_strlit("old");
    reveal_strlit("new");
    if has_object_member(t, "files"@) {
        let once = relabel_tree(t, first_old, first_new);
        lemma_set_keeps_object_member(t, "files"@, "old"@, first_old);
        lemma_set_keeps_object_member(
            set_nested_text(t, "files"@, "old"@, first_old),
            "files"@,
            "new"@,
            first_new,
        );
        let twice = relabel_tree(once, old_label, new_label);
        let direct = relabel_tree(t, old_label, new_label);
        lemma_set_keeps_object_member(t, "files"@, "old"@, old_label);
        match (twice, direct) {
            (JsonTree::Object(m1), JsonTree::Object(m2)) => {
                match (m1["files"@], m2["files"@]) {
                    (JsonTree::Object(f1), JsonTree::Object(f2)) => {
                        assert(f1 =~= f2);
                    },
                    _ => {},
                }
                assert(m1 =~= m2);
            },
            _ => {},
        }
    }
}

/// Relabelling twice with the same labels is relabelling once.
pub proof fn lemma_relabel_idempotent(t: JsonTree, old_label: Seq<char>, new_label: Seq<char>)
    ensures
        relabel_tree(relabel_tree(t, old_label, new_label), old_label, new_label) == relabel_tree(
            t,
            old_label,
            new_label,
        ),
{
    lemma_relabel_last_labels_win(t, old_label, new_label, old_label, new_label);
}

} // verus!
