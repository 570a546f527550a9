//! From one log record to the typed nodes it yields.

use crate::text::{copy_opt, decimal_of, decimal_text, text_is};
use crate::types::{
    views, opt_view, Content, ContentItem, JsonField, KindView, Node, NodeType, NodeView, SessionEvent,
};
use vstd::prelude::*;
use vstd::string::StrSliceExecFns;
use vstd::string::StringExecFns;

verus! {

// ---------------------------------------------------------------------------
// What a content sequence holds

/// Whether a field is the string `tag`.
pub open spec fn field_is(f: JsonField, tag: Seq<char>) -> bool {
    match f {
        JsonField::Text(s) => s@ == tag,
        _ => false,
    }
}

/// The text of an item tagged `text` whose `text` field is a string.
pub open spec fn item_text(item: ContentItem) -> Option<Seq<char>> {
    if field_is(item.kind, "text"@) {
        match item.text {
            JsonField::Text(t) => Some(t@),
            _ => None,
        }
    } else {
        None
    }
}

pub open spec fn item_texts(items: Seq<ContentItem>) -> Seq<Seq<char>>
    decreases items.len(),
{
    if items.len() == 0 {
        Seq::empty()
    } else {
        let rest = item_texts(items.drop_last());
        match item_text(items.last()) {
            Some(t) => rest.push(t),
            None => rest,
        }
    }
}

/// The parts joined with single spaces between them.
pub open spec fn join_spaced(parts: Seq<Seq<char>>) -> Seq<char>
    decreases parts.len(),
{
    if parts.len() == 0 {
        Seq::empty()
    } else if parts.len() == 1 {
        parts[0]
    } else {
        join_spaced(parts.drop_last()) + " "@ + parts.last()
    }
}

/// The text of a message's content: a plain string as it is, the texts of a
/// sequence's text items joined by spaces, and nothing for anything else.
pub open spec fn content_text(c: Content) -> Seq<char> {
    match c {
        Content::Text(s) => s@,
        Content::Items(items) => join_spaced(item_texts(items@)),
        Content::Other => Seq::empty(),
    }
}

pub ghost struct ToolUseView {
    pub id: Seq<char>,
    pub name: Seq<char>,
    pub input: Seq<char>,
}

/// A `tool_use` item with a string `id`, a string `name` and an `input`.
pub open spec fn item_tool_use(item: ContentItem) -> Option<ToolUseView> {
    if field_is(item.kind, "tool_use"@) {
        match (item.id, item.name, item.input) {
            (JsonField::Text(id), JsonField::Text(name), Some(input)) => Some(
                ToolUseView { id: id@, name: name@, input: input@ },
            ),
            _ => None,
        }
    } else {
        None
    }
}

pub open spec fn item_tool_uses(items: Seq<ContentItem>) -> Seq<ToolUseView>
    decreases items.len(),
{
    if items.len() == 0 {
        Seq::empty()
    } else {
        let rest = item_tool_uses(items.drop_last());
        match item_tool_use(items.last()) {
            Some(u) => rest.push(u),
            None => rest,
        }
    }
}

pub open spec fn content_tool_uses(c: Content) -> Seq<ToolUseView> {
    match c {
        Content::Items(items) => item_tool_uses(items@),
        _ => Seq::empty(),
    }
}

pub ghost struct ToolResultView {
    pub tool_use_id: Seq<char>,
    pub output: Seq<char>,
    pub is_error: bool,
}

/// A `tool_result` item with a string `tool_use_id` and some `content`; a
/// content that is not a string reads as empty, a missing or non-boolean
/// `is_error` as false.
pub open spec fn item_tool_result(item: ContentItem) -> Option<ToolResultView> {
    if field_is(item.kind, "tool_result"@) {
        match (item.tool_use_id, item.content) {
            (JsonField::Text(t), JsonField::Missing) => None,
            (JsonField::Text(t), c) => Some(
                ToolResultView {
                    tool_use_id: t@,
                    output: match c {
                        JsonField::Text(s) => s@,
                        _ => Seq::empty(),
                    },
                    is_error: match item.is_error {
                        JsonField::Flag(b) => b,
                        _ => false,
                    },
                },
            ),
            _ => None,
        }
    } else {
        None
    }
}

pub open spec fn item_tool_results(items: Seq<ContentItem>) -> Seq<ToolResultView>
    decreases items.len(),
{
    if items.len() == 0 {
        Seq::empty()
    } else {
        let rest = item_tool_results(items.drop_last());
        match item_tool_result(items.last()) {
            Some(u) => rest.push(u),
            None => rest,
        }
    }
}

pub open spec fn content_tool_results(c: Content) -> Seq<ToolResultView> {
    match c {
        Content::Items(items) => item_tool_results(items@),
        _ => Seq::empty(),
    }
}

// ---------------------------------------------------------------------------
// What a record yields

/// 1 on a side-chain, else 0.
pub open spec fn branch_of(e: SessionEvent) -> u32 {
    if e.is_sidechain == Some(true) {
        1
    } else {
        0
    }
}

/// A node that carries the record's timestamp, branch level and agent.
pub open spec fn node_from(
    e: SessionEvent,
    id: Seq<char>,
    parent: Option<Seq<char>>,
    kind: KindView,
) -> NodeView {
    NodeView {
        id,
        parent_id: parent,
        kind,
        timestamp: e.timestamp,
        branch_level: branch_of(e),
        agent_id: opt_view(e.agent_id),
    }
}

/// The id of the `k`-th result node of a record: `{uuid}:{k}`.
pub open spec fn result_id(e: SessionEvent, k: nat) -> Seq<char> {
    e.uuid@ + ":"@ + decimal_of(k)
}

/// One result node per tool result, linked to the tool call it answers.
pub open spec fn result_nodes(e: SessionEvent, rs: Seq<ToolResultView>) -> Seq<NodeView> {
    Seq::new(
        rs.len(),
        |k: int|
            node_from(
                e,
                result_id(e, k as nat),
                Some(rs[k].tool_use_id),
                KindView::ToolResult { output: rs[k].output, is_error: rs[k].is_error },
            ),
    )
}

/// One tool-use node per tool call, identified by the call's own id and
/// linked to the record.
pub open spec fn use_nodes(e: SessionEvent, us: Seq<ToolUseView>) -> Seq<NodeView> {
    Seq::new(
        us.len(),
        |k: int|
            node_from(
                e,
                us[k].id,
                Some(e.uuid@),
                KindView::ToolUse { name: us[k].name, input: us[k].input },
            ),
    )
}

/// The nodes that a record's message yields.
pub open spec fn message_nodes(e: SessionEvent) -> Seq<NodeView> {
    match e.message {
        None => Seq::empty(),
        Some(m) => {
            let text = content_text(m.content);
            if m.role@ == "user"@ {
                let rs = content_tool_results(m.content);
                if rs.len() > 0 {
                    result_nodes(e, rs)
                } else if text.len() > 0 {
                    seq![node_from(e, e.uuid@, opt_view(e.parent_uuid), KindView::UserMessage(text))]
                } else {
                    Seq::empty()
                }
            } else if m.role@ == "assistant"@ {
                let head = if text.len() > 0 {
                    seq![
                        node_from(
                            e,
                            e.uuid@,
                            opt_view(e.parent_uuid),
                            KindView::AssistantMessage(text),
                        ),
                    ]
                } else {
                    Seq::empty()
                };
                head + use_nodes(e, content_tool_uses(m.content))
            } else {
                Seq::empty()
            }
        },
    }
}

pub open spec fn progress_text() -> Seq<char> {
    "Progress update"@
}

/// All nodes that a record yields, in the order the parser emits them.
pub open spec fn parse_spec(e: SessionEvent) -> Seq<NodeView> {
    if e.event_type@ == "progress"@ {
        message_nodes(e).push(
            node_from(e, e.uuid@, opt_view(e.parent_uuid), KindView::Progress(progress_text())),
        )
    } else {
        message_nodes(e)
    }
}

// ---------------------------------------------------------------------------
// Executable extraction

/// The id given to a record that carries none: `generated-{counter}`.
pub fn default_uuid(counter: u64) -> (r: String)
    ensures
        r@ == "generated-"@ + decimal_of(counter as nat),
{
    let mut id = String::from_str("generated-");
    let digits = decimal_text(counter);
    id.append(digits.as_str());
    id
}

fn extract_text_content(content: &Content) -> (r: String)
    ensures
        r@ == content_text(*content),
{
    match content {
        Content::Text(s) => s.clone(),
        Content::Items(items) => {
            let mut out = String::new();
            let mut found: usize = 0;
            let mut i: usize = 0;
            while i < items.len()
                invariant
                    i <= items@.len(),
                    found == item_texts(items@.take(i as int)).len(),
                    found <= i,
                    out@ == join_spaced(item_texts(items@.take(i as int))),
                decreases items@.len() - i,
            {
                assert(items@.take(i as int + 1).drop_last() =~= items@.take(i as int));
                let item = &items[i];
                let mut is_text = false;
                if let JsonField::Text(kind) = &item.kind {
                    is_text = text_is(kind, "text");
                }
                if is_text {
                    if let JsonField::Text(t) = &item.text {
                        let ghost parts = item_texts(items@.take(i as int));
                        assert(parts.push(t@).drop_last() =~= parts);
                        if found > 0 {
                            out.append(" ");
                        }
                        out.append(t.as_str());
                        found += 1;
                    }
                }
                i += 1;
            }
            assert(items@.take(items@.len() as int) =~= items@);
            out
        },
        Content::Other => String::new(),
    }
}

fn extract_tool_uses(content: &Content) -> (r: Option<Vec<(String, String, String)>>)
    ensures
        content_tool_uses(*content).len() == 0 <==> r is None,
        r matches Some(v) ==> v@.len() == content_tool_uses(*content).len() && forall|k: int|
            0 <= k < v@.len() ==> {
                let u = #[trigger] content_tool_uses(*content)[k];
                &&& v@[k].0@ == u.id
                &&& v@[k].1@ == u.name
                &&& v@[k].2@ == u.input
            },
{
    let items = match content {
        Content::Items(items) => items,
        _ => {
            return None;
        },
    };
    let mut tools: Vec<(String, String, String)> = Vec::new();
    let mut i: usize = 0;
    while i < items.len()
        invariant
            i <= items@.len(),
            tools@.len() == item_tool_uses(items@.take(i as int)).len(),
            forall|k: int|
                0 <= k < tools@.len() ==> {
                    let u = #[trigger] item_tool_uses(items@.take(i as int))[k];
                    &&& tools@[k].0@ == u.id
                    &&& tools@[k].1@ == u.name
                    &&& tools@[k].2@ == u.input
                },
        decreases items@.len() - i,
    {
        assert(items@.take(i as int + 1).drop_last() =~= items@.take(i as int));
        let item = &items[i];
        let mut is_use = false;
        if let JsonField::Text(kind) = &item.kind {
            is_use = text_is(kind, "tool_use");
        }
        if is_use {
            if let (JsonField::Text(id), JsonField::Text(name), Some(input)) = (
                &item.id,
                &item.name,
                &item.input,
            ) {
                tools.push((id.clone(), name.clone(), input.clone()));
            }
        }
        i += 1;
    }
    assert(items@.take(items@.len() as int) =~= items@);
    if tools.len() == 0 {
        None
    } else {
        Some(tools)
    }
}

fn extract_tool_results(content: &Content) -> (r: Option<Vec<(String, String, bool)>>)
    ensures
        content_tool_results(*content).len() == 0 <==> r is None,
        r matches Some(v) ==> v@.len() == content_tool_results(*content).len() && forall|k: int|
            0 <= k < v@.len() ==> {
                let u = #[trigger] content_tool_results(*content)[k];
                &&& v@[k].0@ == u.tool_use_id
                &&& v@[k].1@ == u.output
                &&& v@[k].2 == u.is_error
            },
{
    let items = match content {
        Content::Items(items) => items,
        _ => {
            return None;
        },
    };
    let mut results: Vec<(String, String, bool)> = Vec::new();
    let mut i: usize = 0;
    while i < items.len()
        invariant
            i <= items@.len(),
            results@.len() == item_tool_results(items@.take(i as int)).len(),
            forall|k: int|
                0 <= k < results@.len() ==> {
                    let u = #[trigger] item_tool_results(items@.take(i as int))[k];
                    &&& results@[k].0@ == u.tool_use_id
                    &&& results@[k].1@ == u.output
                    &&& results@[k].2 == u.is_error
                },
        decreases items@.len() - i,
    {
        assert(items@.take(i as int + 1).drop_last() =~= items@.take(i as int));
        let item = &items[i];
        let mut is_result = false;
        if let JsonField::Text(kind) = &item.kind {
            is_result = text_is(kind, "tool_result");
        }
        if is_result {
            if let JsonField::Text(tool_use_id) = &item.tool_use_id {
                let output = match &item.content {
                    JsonField::Missing => None,
                    JsonField::Text(s) => Some(s.clone()),
                    _ => Some(String::new()),
                };
                if let Some(output) = output {
                    let is_error = match &item.is_error {
                        JsonField::Flag(b) => *b,
                        _ => false,
                    };
                    results.push((tool_use_id.clone(), output, is_error));
                }
            }
        }
        i += 1;
    }
    assert(items@.take(items@.len() as int) =~= items@);
    if results.len() == 0 {
        None
    } else {
        Some(results)
    }
}

/// The nodes that one record yields (see `parse_spec`). Never fails: a
/// record of no recognised shape yields no node.
pub fn parse_event_to_node(event: SessionEvent) -> (r: Vec<Node>)
    ensures
        views(r@) == parse_spec(event),
{
    let mut nodes: Vec<Node> = Vec::new();
    let branch_level: u32 = match event.is_sidechain {
        Some(true) => 1,
        _ => 0,
    };
    if let Some(message) = &event.message {
        let text = extract_text_content(&message.content);
        let has_text = text.as_str().unicode_len() > 0;
        if text_is(&message.role, "user") {
            if let Some(results) = extract_tool_results(&message.content) {
                let ghost rs = content_tool_results(message.content);
                let mut k: usize = 0;
                while k < results.len()
                    invariant
                        k <= results@.len(),
                        results@.len() == rs.len(),
                        forall|j: int|
                            0 <= j < results@.len() ==> {
                                let u = #[trigger] rs[j];
                                &&& results@[j].0@ == u.tool_use_id
                                &&& results@[j].1@ == u.output
                                &&& results@[j].2 == u.is_error
                            },
                        branch_level == branch_of(event),
                        nodes@.len() == k,
                        forall|j: int|
                            0 <= j < k ==> (#[trigger] nodes@[j])@ == result_nodes(event, rs)[j],
                    decreases results@.len() - k,
                {
                    let entry = &results[k];
                    let mut id = event.uuid.clone();
                    id.append(":");
                    let digits = decimal_text(k as u64);
                    id.append(digits.as_str());
                    nodes.push(
                        Node {
                            id,
                            parent_id: Some(entry.0.clone()),
                            node_type: NodeType::ToolResult {
                                output: entry.1.clone(),
                                is_error: entry.2,
                            },
                            timestamp: event.timestamp,
                            branch_level,
                            agent_id: copy_opt(&event.agent_id),
                        },
                    );
                    k += 1;
                }
                assert(views(nodes@) =~= message_nodes(event));
            } else if has_text {
                nodes.push(
                    Node {
                        id: event.uuid.clone(),
                        parent_id: copy_opt(&event.parent_uuid),
                        node_type: NodeType::UserMessage(text),
                        timestamp: event.timestamp,
                        branch_level,
                        agent_id: copy_opt(&event.agent_id),
                    },
                );
                assert(views(nodes@) =~= message_nodes(event));
            } else {
                assert(views(nodes@) =~= message_nodes(event));
            }
        } else if text_is(&message.role, "assistant") {
            if has_text {
                nodes.push(
                    Node {
                        id: event.uuid.clone(),
                        parent_id: copy_opt(&event.parent_uuid),
                        node_type: NodeType::AssistantMessage(text),
                        timestamp: event.timestamp,
                        branch_level,
                        agent_id: copy_opt(&event.agent_id),
                    },
                );
            }
            let ghost head = views(nodes@);
            let ghost us = content_tool_uses(message.content);
            if let Some(uses) = extract_tool_uses(&message.content) {
                let mut k: usize = 0;
                while k < uses.len()
                    invariant
                        k <= uses@.len(),
                        uses@.len() == us.len(),
                        forall|j: int|
                            0 <= j < uses@.len() ==> {
                                let u = #[trigger] us[j];
                                &&& uses@[j].0@ == u.id
                                &&& uses@[j].1@ == u.name
                                &&& uses@[j].2@ == u.input
                            },
                        branch_level == branch_of(event),
                        nodes@.len() == head.len() + k,
                        forall|j: int| 0 <= j < head.len() ==> (#[trigger] nodes@[j])@ == head[j],
                        forall|j: int|
                            0 <= j < k ==> (#[trigger] nodes@[head.len() + j])@ == use_nodes(
                                event,
                                us,
                            )[j],
                    decreases uses@.len() - k,
                {
                    let entry = &uses[k];
                    nodes.push(
                        Node {
                            id: entry.0.clone(),
                            parent_id: Some(event.uuid.clone()),
                            node_type: NodeType::ToolUse {
                                name: entry.1.clone(),
                                input: entry.2.clone(),
                            },
                            timestamp: event.timestamp,
                            branch_level,
                            agent_id: copy_opt(&event.agent_id),
                        },
                    );
                    k += 1;
                }
                assert forall|i: int| head.len() <= i < nodes@.len() implies (#[trigger] nodes@[i])@
                    == use_nodes(event, us)[i - head.len()] by {
                    assert(nodes@[head.len() + (i - head.len())] == nodes@[i]);
                }
            }
            assert(views(nodes@) =~= head + use_nodes(event, us));
            assert(views(nodes@) =~= message_nodes(event));
        } else {
            assert(views(nodes@) =~= message_nodes(event));
        }
    } else {
        assert(views(nodes@) =~= message_nodes(event));
    }
    let ghost before = views(nodes@);
    if text_is(&event.event_type, "progress") {
        nodes.push(
            Node {
                id: event.uuid.clone(),
                parent_id: copy_opt(&event.parent_uuid),
                node_type: NodeType::Progress(String::from_str("Progress update")),
                timestamp: event.timestamp,
                branch_level,
                agent_id: copy_opt(&event.agent_id),
            },
        );
        assert(views(nodes@) =~= before.push(views(nodes@).last()));
    }
    assert(views(nodes@) =~= parse_spec(event));
    nodes
}

/// A tool call and its result pair up by the call's own id: the tool-use node
/// of an assistant record carries the id of its `tool_use` item (and has the
/// record as parent), and the result node of a user record whose
/// `tool_result` item names that id has exactly that id as parent, never the
/// id of the record that made the call.
pub proof fn lemma_tool_pairing(call: SessionEvent, answer: SessionEvent, k: int, m: int)
    requires
        call.message matches Some(msg) && msg.role@ == "assistant"@,
        answer.message matches Some(msg) && msg.role@ == "user"@,
        0 <= k < content_tool_uses(call.message.unwrap().content).len(),
        0 <= m < content_tool_results(answer.message.unwrap().content).len(),
        content_tool_uses(call.message.unwrap().content)[k].id == content_tool_results(
            answer.message.unwrap().content,
        )[m].tool_use_id,
    ensures
        exists|i: int|
            0 <= i < parse_spec(call).len() && (#[trigger] parse_spec(call)[i]).kind is ToolUse
                && parse_spec(call)[i].id == content_tool_uses(call.message.unwrap().content)[k].id
                && parse_spec(call)[i].parent_id == Some(call.uuid@),
        exists|j: int|
            0 <= j < parse_spec(answer).len() && (#[trigger] parse_spec(answer)[j]).kind is ToolResult
                && parse_spec(answer)[j].parent_id == Some(
                content_tool_uses(call.message.unwrap().content)[k].id,
            ),
{
    let cm = call.message.unwrap();
    let am = answer.message.unwrap();
    let text = content_text(cm.content);
    let head_len: int = if text.len() > 0 { 1 } else { 0 };
    let i = head_len + k;
    reveal_strlit("user");
    reveal_strlit("assistant");
    let head = if text.len() > 0 {
        seq![node_from(call, call.uuid@, opt_view(call.parent_uuid), KindView::AssistantMessage(text))]
    } else {
        Seq::<NodeView>::empty()
    };
    assert("assistant"@.len() != "user"@.len());
    assert(cm.role@ != "user"@);
    assert(message_nodes(call) == head + use_nodes(call, content_tool_uses(cm.content)));
    assert(message_nodes(call)[i] == use_nodes(call, content_tool_uses(cm.content))[k]);
    assert(parse_spec(call)[i] == message_nodes(call)[i]);
    assert(parse_spec(answer)[m] == message_nodes(answer)[m]);
    assert(message_nodes(answer)[m] == result_nodes(answer, content_tool_results(am.content))[m]);
}

} // verus!
