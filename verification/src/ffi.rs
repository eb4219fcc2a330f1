//! The JSON texts that the foreign-function interface hands back to
//! TypeScript: `{"ok":true,"result":...}` or `{"ok":false,"error":"..."}`.
use vstd::prelude::*;
use crate::backend::{decimal, join, join_strings, lit, u64_to_decimal};
use crate::error::ComposeError;
use crate::text::{chars_of, replace_all, replace_char, string_from_chars};
use crate::types::{views, ContainerInfo, ContainerLogs, ImageInfo};

verus! {

/// The header of a runtime string: the byte length of the UTF-8 text that
/// follows it.
pub struct StringHeader {
    pub length: u32,
}

/// `s` with every `"` written as `\"`.
pub open spec fn quote_escaped(s: Seq<char>) -> Seq<char> {
    replace_all(s, seq!['"'], seq!['\\', '"'])
}

/// `s` with every `"` written as `\"`, then every newline as `\n`.
pub open spec fn text_escaped(s: Seq<char>) -> Seq<char> {
    replace_all(quote_escaped(s), seq!['\n'], seq!['\\', 'n'])
}

fn escape_quotes(s: &str) -> (r: String)
    ensures
        r@ == quote_escaped(s@),
{
    let v = chars_of(s);
    let to: Vec<char> = vec!['\\', '"'];
    assert(to@ =~= seq!['\\', '"']);
    string_from_chars(replace_char(&v, '"', &to))
}

/// `s` with every `"` written as `\"`, then every newline as `\n`.
pub fn escape_text(s: &str) -> (r: String)
    ensures
        r@ == text_escaped(s@),
{
    let q = chars_of(s);
    let to_q: Vec<char> = vec!['\\', '"'];
    assert(to_q@ =~= seq!['\\', '"']);
    let q2 = replace_char(&q, '"', &to_q);
    let to_n: Vec<char> = vec!['\\', 'n'];
    assert(to_n@ =~= seq!['\\', 'n']);
    string_from_chars(replace_char(&q2, '\n', &to_n))
}

/// A success carrying `value`, which is JSON already.
pub fn json_ok(value: &str) -> (r: String)
    ensures
        r@ == "{\"ok\":true,\"result\":"@ + value@ + "}"@,
{
    let mut s = lit("{\"ok\":true,\"result\":");
    s.append(value);
    s.append("}");
    s
}

/// A failure carrying `message`, with its quotes escaped.
pub fn json_err(message: &str) -> (r: String)
    ensures
        r@ == "{\"ok\":false,\"error\":\""@ + quote_escaped(message@) + "\"}"@,
{
    let mut s = lit("{\"ok\":false,\"error\":\"");
    let e = escape_quotes(message);
    s.append(e.as_str());
    s.append("\"}");
    s
}

/// The text reported to TypeScript for a compose error: its message.
pub fn compose_error_to_js_internal(e: &ComposeError) -> (r: String)
    ensures
        r@ == e.message_view(),
{
    e.message()
}

/// One row of `ps`: `{"service":NAME,"container":ID,"status":STATUS}`,
/// written as they are.
pub open spec fn ps_item(i: ContainerInfo) -> Seq<char> {
    "{\"service\":\""@ + i.name@ + "\",\"container\":\""@ + i.id@ + "\",\"status\":\""@ + i.status@
        + "\"}"@
}

/// The result of `ps`: a JSON array of one row per container.
pub fn ps_json(infos: &Vec<ContainerInfo>) -> (r: String)
    ensures
        r@ == "["@ + join(infos@.map_values(|i: ContainerInfo| ps_item(i)), ","@) + "]"@,
{
    let mut items: Vec<String> = Vec::new();
    let mut k: usize = 0;
    while k < infos.len()
        invariant
            k <= infos.len(),
            items.len() == k,
            forall|j: int| 0 <= j < k ==> (#[trigger] items@[j])@ == ps_item(infos@[j]),
        decreases infos.len() - k,
    {
        let i = &infos[k];
        let mut s = lit("{\"service\":\"");
        s.append(i.name.as_str());
        s.append("\",\"container\":\"");
        s.append(i.id.as_str());
        s.append("\",\"status\":\"");
        s.append(i.status.as_str());
        s.append("\"}");
        items.push(s);
        k = k + 1;
    }
    assert(views(items@) =~= infos@.map_values(|i: ContainerInfo| ps_item(i)));
    let mut out = lit("[");
    let joined = join_strings(&items, ",");
    out.append(joined.as_str());
    out.append("]");
    out
}

/// A JSON string holding `s`.
pub open spec fn quoted(s: Seq<char>) -> Seq<char> {
    "\""@ + text_escaped(s) + "\""@
}

/// A JSON array of strings.
pub open spec fn strings_json_of(v: Seq<Seq<char>>) -> Seq<char> {
    "["@ + join(v.map_values(|t: Seq<char>| quoted(t)), ","@) + "]"@
}

/// A container as a JSON object with its id, name, image, status, ports
/// and creation time.
pub open spec fn container_object(i: ContainerInfo) -> Seq<char> {
    "{\"id\":"@ + quoted(i.id@) + ",\"name\":"@ + quoted(i.name@) + ",\"image\":"@ + quoted(i.image@)
        + ",\"status\":"@ + quoted(i.status@) + ",\"ports\":"@ + strings_json_of(views(i.ports@))
        + ",\"created\":"@ + quoted(i.created@) + "}"@
}

/// An image as a JSON object with its id, repository, tag, size and
/// creation time.
pub open spec fn image_object(i: ImageInfo) -> Seq<char> {
    "{\"id\":"@ + quoted(i.id@) + ",\"repository\":"@ + quoted(i.repository@) + ",\"tag\":"@ + quoted(
        i.tag@,
    ) + ",\"size\":"@ + decimal(i.size as nat) + ",\"created\":"@ + quoted(i.created@) + "}"@
}

fn quote(s: &str) -> (r: String)
    ensures
        r@ == quoted(s@),
{
    let mut q = lit("\"");
    q.append(escape_text(s).as_str());
    q.append("\"");
    q
}

/// A JSON array of strings.
pub fn strings_json(v: &Vec<String>) -> (r: String)
    ensures
        r@ == strings_json_of(views(v@)),
{
    let ghost texts = views(v@).map_values(|t: Seq<char>| quoted(t));
    let mut items: Vec<String> = Vec::new();
    let mut k: usize = 0;
    while k < v.len()
        invariant
            k <= v.len(),
            texts == views(v@).map_values(|t: Seq<char>| quoted(t)),
            items.len() == k,
            forall|j: int| 0 <= j < k ==> (#[trigger] items@[j])@ == texts[j],
        decreases v.len() - k,
    {
        items.push(quote(v[k].as_str()));
        k = k + 1;
    }
    assert(views(items@) =~= texts);
    let mut out = lit("[");
    out.append(join_strings(&items, ",").as_str());
    out.append("]");
    out
}

/// The result of inspecting a container: its JSON object.
pub fn container_json(i: &ContainerInfo) -> (r: String)
    ensures
        r@ == container_object(*i),
{
    let mut s = lit("{\"id\":");
    s.append(quote(i.id.as_str()).as_str());
    s.append(",\"name\":");
    s.append(quote(i.name.as_str()).as_str());
    s.append(",\"image\":");
    s.append(quote(i.image.as_str()).as_str());
    s.append(",\"status\":");
    s.append(quote(i.status.as_str()).as_str());
    s.append(",\"ports\":");
    s.append(strings_json(&i.ports).as_str());
    s.append(",\"created\":");
    s.append(quote(i.created.as_str()).as_str());
    s.append("}");
    s
}

/// The images of a runtime: a JSON array of their objects.
pub fn images_json(images: &Vec<ImageInfo>) -> (r: String)
    ensures
        r@ == "["@ + join(images@.map_values(|i: ImageInfo| image_object(i)), ","@) + "]"@,
{
    let mut items: Vec<String> = Vec::new();
    let mut k: usize = 0;
    while k < images.len()
        invariant
            k <= images.len(),
            items.len() == k,
            forall|j: int| 0 <= j < k ==> (#[trigger] items@[j])@ == image_object(images@[j]),
        decreases images.len() - k,
    {
        let i = &images[k];
        let mut s = lit("{\"id\":");
        s.append(quote(i.id.as_str()).as_str());
        s.append(",\"repository\":");
        s.append(quote(i.repository.as_str()).as_str());
        s.append(",\"tag\":");
        s.append(quote(i.tag.as_str()).as_str());
        s.append(",\"size\":");
        s.append(u64_to_decimal(i.size).as_str());
        s.append(",\"created\":");
        s.append(quote(i.created.as_str()).as_str());
        s.append("}");
        items.push(s);
        k = k + 1;
    }
    assert(views(items@) =~= images@.map_values(|i: ImageInfo| image_object(i)));
    let mut out = lit("[");
    out.append(join_strings(&items, ",").as_str());
    out.append("]");
    out
}

/// `{"stdout":...,"stderr":...}` with both texts escaped.
pub fn output_json(stdout: &str, stderr: &str) -> (r: String)
    ensures
        r@ == "{\"stdout\":\""@ + text_escaped(stdout@) + "\",\"stderr\":\""@ + text_escaped(stderr@)
            + "\"}"@,
{
    let mut s = lit("{\"stdout\":\"");
    let o = escape_text(stdout);
    s.append(o.as_str());
    s.append("\",\"stderr\":\"");
    let e = escape_text(stderr);
    s.append(e.as_str());
    s.append("\"}");
    s
}

/// Each service's text as `[SERVICE] TEXT` on a line of its own.
pub open spec fn tagged_lines(logs: Seq<(String, ContainerLogs)>, stdout: bool) -> Seq<char>
    decreases logs.len(),
{
    if logs.len() == 0 {
        Seq::empty()
    } else {
        let e = logs.last();
        tagged_lines(logs.drop_last(), stdout) + "["@ + e.0@ + "] "@ + (if stdout {
            e.1.stdout@
        } else {
            e.1.stderr@
        }) + "\n"@
    }
}

/// The result of `logs` for several services: their output and their
/// errors, each line tagged with its service.
pub fn logs_json(logs: &Vec<(String, ContainerLogs)>) -> (r: String)
    ensures
        r@ == "{\"stdout\":\""@ + text_escaped(tagged_lines(logs@, true)) + "\",\"stderr\":\""@
            + text_escaped(tagged_lines(logs@, false)) + "\"}"@,
{
    let mut out = String::new();
    let mut err = String::new();
    let mut k: usize = 0;
    while k < logs.len()
        invariant
            k <= logs.len(),
            out@ == tagged_lines(logs@.take(k as int), true),
            err@ == tagged_lines(logs@.take(k as int), false),
        decreases logs.len() - k,
    {
        proof {
            assert(logs@.take(k + 1).drop_last() =~= logs@.take(k as int));
            assert(logs@.take(k + 1).last() == logs@[k as int]);
        }
        out.append("[");
        out.append(logs[k].0.as_str());
        out.append("] ");
        out.append(logs[k].1.stdout.as_str());
        out.append("\n");
        err.append("[");
        err.append(logs[k].0.as_str());
        err.append("] ");
        err.append(logs[k].1.stderr.as_str());
        err.append("\n");
        k = k + 1;
    }
    assert(logs@.take(k as int) =~= logs@);
    output_json(out.as_str(), err.as_str())
}

/// A YAML text as a JSON string, escaped.
pub fn yaml_text_json(yaml: &str) -> (r: String)
    ensures
        r@ == "\""@ + text_escaped(yaml@) + "\""@,
{
    let mut s = lit("\"");
    let e = escape_text(yaml);
    s.append(e.as_str());
    s.append("\"");
    s
}

} // verus!
