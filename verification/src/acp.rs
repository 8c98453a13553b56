//! Text handling of the agent bridge: type hints appended to prompts, and
//! values taken out of markdown code fences in replies.
use vstd::prelude::*;
use crate::prompts::{is_ws, is_whitespace_char, str_eq};
use crate::strutil::{push_char, str_chars};
use crate::codegen::{decimal, decimal_string};

verus! {

/// Argument of the `do` tool: which child to run.
#[derive(Debug, Clone, Copy, PartialEq, Eq)]
pub struct DoArg {
    /// Index of the child to execute.
    pub number: usize,
}

/// Result of the `do` tool.
#[derive(Debug, Clone, PartialEq)]
pub struct DoResult {
    /// The text the child produced.
    pub text: String,
}

/// Whether `m` occurs in `t` at position `i`.
pub open spec fn occurs_at(t: Seq<char>, m: Seq<char>, i: int) -> bool {
    0 <= i && i + m.len() <= t.len() && t.subrange(i, i + m.len()) == m
}

/// The first position at or after `i` where `m` occurs in `t`, or -1.
pub open spec fn find_from(t: Seq<char>, m: Seq<char>, i: int) -> int
    decreases t.len() - i,
{
    if i < 0 || i + m.len() > t.len() {
        -1
    } else if occurs_at(t, m, i) {
        i
    } else if i >= t.len() {
        -1
    } else {
        find_from(t, m, i + 1)
    }
}

/// What `find_from` finds is an occurrence, at or after the start.
pub proof fn lemma_find_from(t: Seq<char>, m: Seq<char>, i: int)
    ensures
        find_from(t, m, i) == -1 || (i <= find_from(t, m, i) && occurs_at(t, m, find_from(t, m, i))),
    decreases t.len() - i,
{
    if i < 0 || i + m.len() > t.len() {
    } else if occurs_at(t, m, i) {
    } else if i >= t.len() {
    } else {
        lemma_find_from(t, m, i + 1);
    }
}

/// Where `find_from` finds nothing, `m` occurs nowhere at or after the start.
pub proof fn lemma_find_from_none(t: Seq<char>, m: Seq<char>, i: int)
    requires
        i >= 0,
        find_from(t, m, i) == -1,
    ensures
        forall|j: int| j >= i ==> !occurs_at(t, m, j),
    decreases t.len() - i,
{
    if i + m.len() > t.len() {
    } else if occurs_at(t, m, i) {
    } else if i >= t.len() {
        assert forall|j: int| j >= i implies !occurs_at(t, m, j) by {
            if j > i && occurs_at(t, m, j) {
                assert(m.len() == 0);
                assert(t.subrange(i, i + m.len()) =~= m);
            }
        }
    } else {
        lemma_find_from_none(t, m, i + 1);
    }
}

/// `s` without its leading white space.
pub open spec fn trim_start(s: Seq<char>) -> Seq<char>
    decreases s.len(),
{
    if s.len() > 0 && is_ws(s[0]) {
        trim_start(s.drop_first())
    } else {
        s
    }
}

/// `s` without its trailing white space.
pub open spec fn trim_end(s: Seq<char>) -> Seq<char>
    decreases s.len(),
{
    if s.len() > 0 && is_ws(s.last()) {
        trim_end(s.drop_last())
    } else {
        s
    }
}

/// `s` without leading and trailing white space.
pub open spec fn trim(s: Seq<char>) -> Seq<char> {
    trim_end(trim_start(s))
}

/// The content of the first code fence that opens with `marker` in `t`:
/// the lines after the line of the marker, up to the next "```", trimmed;
/// none where the marker, the end of its line or the closing fence is
/// missing.
pub open spec fn fence_content(t: Seq<char>, marker: Seq<char>) -> Option<Seq<char>> {
    let start = find_from(t, marker, 0);
    if start < 0 {
        None
    } else {
        let nl = find_from(t, seq!['\n'], start + marker.len());
        if nl < 0 {
            None
        } else {
            let end = find_from(t, seq!['`', '`', '`'], nl + 1);
            if end < 0 {
                None
            } else {
                Some(trim(t.subrange(nl + 1, end)))
            }
        }
    }
}

/// The first position at or after `from` where `m` occurs in `t`.
pub fn find_chars(t: &Vec<char>, m: &Vec<char>, from: usize) -> (r: Option<usize>)
    ensures
        match r {
            Some(k) => k == find_from(t@, m@, from as int) && occurs_at(t@, m@, k as int),
            None => find_from(t@, m@, from as int) == -1,
        },
{
    proof {
        lemma_find_from(t@, m@, from as int);
    }
    if from > t.len() || m.len() > t.len() - from {
        return None;
    }
    let last = t.len() - m.len();
    let mut i: usize = from;
    while i <= last
        invariant
            from <= i,
            last == t.len() - m.len(),
            m.len() <= t.len(),
            find_from(t@, m@, from as int) == find_from(t@, m@, i as int),
        decreases t.len() + 1 - i,
    {
        let mut k: usize = 0;
        let mut same = true;
        while k < m.len()
            invariant
                k <= m.len(),
                i + m.len() <= t.len(),
                same == (forall|j: int| 0 <= j < k ==> t@[i + j] == m@[j]),
            decreases m.len() - k,
        {
            if t[i + k] != m[k] {
                same = false;
            }
            k = k + 1;
        }
        proof {
            if same {
                assert(t@.subrange(i as int, i + m.len()) =~= m@);
            } else {
                if t@.subrange(i as int, i + m.len()) == m@ {
                    assert(forall|j: int|
                        0 <= j < m.len() ==> #[trigger] t@.subrange(i as int, i + m.len())[j]
                            == t@[i + j]);
                }
            }
        }
        if same {
            return Some(i);
        }
        if i == t.len() {
            return None;
        }
        i = i + 1;
    }
    None
}

/// The characters `t[from..to]` as a string.
fn chars_to_string(t: &Vec<char>, from: usize, to: usize) -> (r: String)
    requires
        from <= to <= t.len(),
    ensures
        r@ == t@.subrange(from as int, to as int),
{
    let mut s = String::new();
    let mut i: usize = from;
    while i < to
        invariant
            from <= i <= to,
            to <= t.len(),
            s@ == t@.subrange(from as int, i as int),
        decreases to - i,
    {
        push_char(&mut s, t[i]);
        proof {
            assert(s@ =~= t@.subrange(from as int, i + 1));
        }
        i = i + 1;
    }
    s
}

/// Trimming a range of characters: the bounds of what is left.
fn trim_bounds(t: &Vec<char>, from: usize, to: usize) -> (r: (usize, usize))
    requires
        from <= to <= t.len(),
    ensures
        from <= r.0 <= r.1 <= to,
        t@.subrange(r.0 as int, r.1 as int) == trim(t@.subrange(from as int, to as int)),
{
    let mut a: usize = from;
    while a < to && is_whitespace_char(t[a])
        invariant
            from <= a <= to,
            to <= t.len(),
            trim_start(t@.subrange(from as int, to as int)) == trim_start(
                t@.subrange(a as int, to as int),
            ),
        decreases to - a,
    {
        proof {
            assert(t@.subrange(a as int, to as int).drop_first() =~= t@.subrange(a + 1, to as int));
        }
        a = a + 1;
    }
    proof {
        assert(trim_start(t@.subrange(a as int, to as int)) == t@.subrange(a as int, to as int));
    }
    let mut b: usize = to;
    while b > a && is_whitespace_char(t[b - 1])
        invariant
            a <= b <= to,
            to <= t.len(),
            trim_end(t@.subrange(a as int, to as int)) == trim_end(t@.subrange(a as int, b as int)),
        decreases b - a,
    {
        proof {
            assert(t@.subrange(a as int, b as int).drop_last() =~= t@.subrange(a as int, b - 1));
        }
        b = b - 1;
    }
    (a, b)
}

/// The content of the first code fence that opens with `marker`.
pub fn extract_code_fence(text: &str, marker: &str) -> (r: Option<String>)
    ensures
        match fence_content(text@, marker@) {
            Some(c) => r matches Some(s) && s@ == c,
            None => r is None,
        },
{
    let t = str_chars(text);
    let m = str_chars(marker);
    let start = match find_chars(&t, &m, 0) {
        Some(k) => k,
        None => {
            return None;
        },
    };
    let tlen = t.len();
    assert(occurs_at(t@, m@, start as int));
    assert(start + m@.len() <= tlen);
    let after_marker = start + m.len();
    let mut newline: Vec<char> = Vec::new();
    newline.push('\n');
    proof {
        assert(newline@ =~= seq!['\n']);
    }
    let nl = match find_chars(&t, &newline, after_marker) {
        Some(k) => k,
        None => {
            return None;
        },
    };
    assert(occurs_at(t@, newline@, nl as int));
    let content_start = nl + 1;
    let mut fence: Vec<char> = Vec::new();
    fence.push('`');
    fence.push('`');
    fence.push('`');
    proof {
        assert(fence@ =~= seq!['`', '`', '`']);
        lemma_find_from(t@, fence@, content_start as int);
    }
    let end = match find_chars(&t, &fence, content_start) {
        Some(k) => k,
        None => {
            return None;
        },
    };
    let (a, b) = trim_bounds(&t, content_start, end);
    Some(chars_to_string(&t, a, b))
}

/// The instructions appended to a prompt that expects a string.
pub open spec fn string_hint() -> Seq<char> {
    "\n\nRespond with a string value. Format your response as:\n```text\nyour response here\n```"@
}

/// The instructions appended to a prompt that expects JSON.
pub open spec fn json_hint() -> Seq<char> {
    "\n\nRespond with a JSON value. Format your response as:\n```json\nyour JSON here\n```"@
}

/// A prompt with instructions on how to format the reply: for `string`, in
/// a `text` code fence; for `json`, in a `json` code fence; for any other
/// expectation the prompt is left as it is.
pub fn augment_prompt_with_type_hint(prompt: &str, expect: &str) -> (r: String)
    ensures
        r@ == (if expect@ == "string"@ {
            prompt@ + string_hint()
        } else if expect@ == "json"@ {
            prompt@ + json_hint()
        } else {
            prompt@
        }),
{
    let mut out = prompt.to_owned();
    if str_eq(expect, "string") {
        out.append(
            "\n\nRespond with a string value. Format your response as:\n```text\nyour response here\n```",
        );
    } else if str_eq(expect, "json") {
        out.append(
            "\n\nRespond with a JSON value. Format your response as:\n```json\nyour JSON here\n```",
        );
    }
    out
}

/// Patchwork code is recognized by `{` as its first character after white
/// space.
pub fn is_patchwork_code(text: &str) -> (r: bool)
    ensures
        r == (trim_start(text@).len() > 0 && trim_start(text@)[0] == '{'),
{
    let cs = str_chars(text);
    let mut i: usize = 0;
    proof {
        assert(cs@.skip(0) =~= cs@);
    }
    while i < cs.len() && is_whitespace_char(cs[i])
        invariant
            cs@ == text@,
            i <= cs@.len(),
            trim_start(cs@.skip(i as int)) == trim_start(text@),
        decreases cs@.len() - i,
    {
        proof {
            assert(cs@.skip(i as int).drop_first() =~= cs@.skip(i + 1));
        }
        i = i + 1;
    }
    proof {
        if i < cs@.len() {
            assert(cs@.skip(i as int)[0] == cs@[i as int]);
        } else {
            assert(cs@.skip(i as int).len() == 0);
        }
    }
    i < cs.len() && cs[i] == '{'
}

/// A value taken out of a reply: text, or JSON text still to be read.
#[derive(Debug, Clone, PartialEq)]
pub enum ResponseValue {
    Text(String),
    Json(String),
}

/// The code fence marker of a reply that should hold a value of the
/// expected kind.
pub open spec fn fence_marker(expect: Seq<char>) -> Seq<char> {
    if expect == "string"@ {
        "```text"@
    } else if expect == "json"@ {
        "```json"@
    } else {
        "```"@
    }
}

/// The value in a reply: the content of the code fence of the expected
/// kind (JSON text where JSON is expected), or else the whole reply as text.
pub fn extract_response_value(response: &str, expect: &str) -> (r: ResponseValue)
    ensures
        match fence_content(response@, fence_marker(expect@)) {
            Some(v) => if expect@ == "json"@ {
                r matches ResponseValue::Json(s) && s@ == v
            } else {
                r matches ResponseValue::Text(s) && s@ == v
            },
            None => r matches ResponseValue::Text(s) && s@ == response@,
        },
{
    let is_string = str_eq(expect, "string");
    let is_json = str_eq(expect, "json");
    let marker = if is_string {
        "```text"
    } else if is_json {
        "```json"
    } else {
        "```"
    };
    match extract_code_fence(response, marker) {
        Some(value) => if is_json {
            ResponseValue::Json(value)
        } else {
            ResponseValue::Text(value)
        },
        None => ResponseValue::Text(response.to_owned()),
    }
}

// ===== Routing to the active think session =====

/// What reaches the router of think sessions: a message for the active
/// session, a new (nested) session, or the end of the innermost one.
#[derive(Debug, Clone, Copy, PartialEq, Eq, Structural)]
pub enum RedirectEvent {
    Incoming,
    PushThinker(u64),
    PopThinker,
}

/// What the router does with an event.
#[derive(Debug, Clone, Copy, PartialEq, Eq, Structural)]
pub enum Route {
    /// Hand the message to the session with this id.
    Deliver(u64),
    /// No session is active: the message is dropped.
    Discard,
    /// The stack of sessions changed.
    Updated,
}

/// The stack of sessions after an event.
pub open spec fn stack_after(s: Seq<u64>, ev: RedirectEvent) -> Seq<u64> {
    match ev {
        RedirectEvent::Incoming => s,
        RedirectEvent::PushThinker(id) => s.push(id),
        RedirectEvent::PopThinker => if s.len() > 0 {
            s.drop_last()
        } else {
            s
        },
    }
}

/// What the router does with an event, with `s` the stack of sessions.
pub open spec fn route_of(s: Seq<u64>, ev: RedirectEvent) -> Route {
    match ev {
        RedirectEvent::Incoming => if s.len() > 0 {
            Route::Deliver(s.last())
        } else {
            Route::Discard
        },
        _ => Route::Updated,
    }
}

/// The router of think sessions: a stack of the ids of active sessions,
/// the innermost on top.
pub struct ThinkerStack {
    stack: Vec<u64>,
}

impl View for ThinkerStack {
    type V = Seq<u64>;

    closed spec fn view(&self) -> Seq<u64> {
        self.stack@
    }
}

impl ThinkerStack {
    /// No active session.
    pub fn new() -> (r: Self)
        ensures
            r@ == Seq::<u64>::empty(),
    {
        ThinkerStack { stack: Vec::new() }
    }

    /// Handles one event.
    pub fn handle(&mut self, ev: RedirectEvent) -> (r: Route)
        ensures
            final(self)@ == stack_after(old(self)@, ev),
            r == route_of(old(self)@, ev),
    {
        match ev {
            RedirectEvent::Incoming => {
                let n = self.stack.len();
                if n > 0 {
                    Route::Deliver(self.stack[n - 1])
                } else {
                    Route::Discard
                }
            },
            RedirectEvent::PushThinker(id) => {
                self.stack.push(id);
                Route::Updated
            },
            RedirectEvent::PopThinker => {
                self.stack.pop();
                Route::Updated
            },
        }
    }

    /// The session messages go to: the innermost active one.
    pub fn active(&self) -> (r: Option<u64>)
        ensures
            r == (if self@.len() > 0 {
                Some(self@.last())
            } else {
                None::<u64>
            }),
    {
        let n = self.stack.len();
        if n > 0 {
            Some(self.stack[n - 1])
        } else {
            None
        }
    }
}

/// A message that arrives while a nested session is active goes to that
/// session, the innermost one.
pub proof fn law_route_to_innermost(s: Seq<u64>, id: u64)
    ensures
        route_of(stack_after(s, RedirectEvent::PushThinker(id)), RedirectEvent::Incoming)
            == Route::Deliver(id),
{
}

/// When a nested session ends, messages go again to the session that was
/// active before it began.
pub proof fn law_pop_restores(s: Seq<u64>, id: u64)
    ensures
        stack_after(stack_after(s, RedirectEvent::PushThinker(id)), RedirectEvent::PopThinker) == s,
{
    assert(s.push(id).drop_last() =~= s);
}

/// An incoming message leaves the stack of sessions as it is.
pub proof fn law_incoming_keeps_stack(s: Seq<u64>)
    ensures
        stack_after(s, RedirectEvent::Incoming) == s,
{
}

// ===== One think session =====

/// What happens in a think session.
#[derive(Debug, Clone, PartialEq)]
pub enum SessionEvent {
    /// A chunk of the model's text reply.
    TextChunk(String),
    /// Any other notification of the session.
    OtherUpdate,
    /// The model called the `do` tool.
    DoInvocation(DoArg),
    /// The prompt is answered (whatever the stop reason).
    PromptResponse,
}

/// What the session does about an event.
#[derive(Debug, Clone, PartialEq)]
pub enum SessionAction {
    /// Wait for the next event.
    Continue,
    /// Answer the `do` call with this text.
    ReplyDo(String),
    /// The reply is complete.
    Finish,
}

/// The answer to a `do` call, which does not run children yet.
pub open spec fn do_reply_text(n: nat) -> Seq<char> {
    "do("@ + decimal(n) + ") not yet implemented"@
}

/// A think session: the reply text gathered so far.
pub struct ThinkSession {
    text: String,
    finished: bool,
}

impl ThinkSession {
    /// The text gathered so far.
    pub closed spec fn text_spec(&self) -> Seq<char> {
        self.text@
    }

    /// Whether the prompt has been answered.
    pub closed spec fn finished_spec(&self) -> bool {
        self.finished
    }

    /// A session that has gathered nothing.
    pub fn new() -> (r: Self)
        ensures
            r.text_spec() == Seq::<char>::empty(),
            !r.finished_spec(),
    {
        ThinkSession { text: String::new(), finished: false }
    }

    /// Handles one event: text chunks are appended to the reply, a `do`
    /// call is answered, and the prompt's response finishes the session.
    pub fn handle(&mut self, ev: SessionEvent) -> (r: SessionAction)
        ensures
            match ev {
                SessionEvent::TextChunk(t) => r == SessionAction::Continue && final(self).text_spec()
                    == old(self).text_spec() + t@ && final(self).finished_spec() == old(self).finished_spec(),
                SessionEvent::OtherUpdate => r == SessionAction::Continue && final(self).text_spec()
                    == old(self).text_spec() && final(self).finished_spec() == old(self).finished_spec(),
                SessionEvent::DoInvocation(arg) => r matches SessionAction::ReplyDo(m) && m@ == do_reply_text(
                    arg.number as nat,
                ) && final(self).text_spec() == old(self).text_spec() && final(self).finished_spec()
                    == old(self).finished_spec(),
                SessionEvent::PromptResponse => r == SessionAction::Finish && final(self).text_spec()
                    == old(self).text_spec() && final(self).finished_spec(),
            },
    {
        match ev {
            SessionEvent::TextChunk(t) => {
                self.text.append(t.as_str());
                SessionAction::Continue
            },
            SessionEvent::OtherUpdate => SessionAction::Continue,
            SessionEvent::DoInvocation(arg) => {
                let mut m = String::new();
                m.append("do(");
                let digits = decimal_string(arg.number);
                m.append(digits.as_str());
                m.append(") not yet implemented");
                SessionAction::ReplyDo(m)
            },
            SessionEvent::PromptResponse => {
                self.finished = true;
                SessionAction::Finish
            },
        }
    }

    /// The reply text gathered.
    pub fn text(&self) -> (r: &String)
        ensures
            r@ == self.text_spec(),
    {
        &self.text
    }

    /// The value of the reply, read as `extract_response_value` does.
    pub fn result(&self, expect: &str) -> (r: ResponseValue)
        ensures
            match fence_content(self.text_spec(), fence_marker(expect@)) {
                Some(v) => if expect@ == "json"@ {
                    r matches ResponseValue::Json(s) && s@ == v
                } else {
                    r matches ResponseValue::Text(s) && s@ == v
                },
                None => r matches ResponseValue::Text(s) && s@ == self.text_spec(),
            },
    {
        extract_response_value(self.text.as_str(), expect)
    }
}

// ===== Sessions under evaluation =====

/// The sessions whose Patchwork code is being evaluated: at most one
/// evaluation runs per session.
pub struct ActiveSessions {
    ids: Vec<String>,
}

impl View for ActiveSessions {
    type V = Set<Seq<char>>;

    closed spec fn view(&self) -> Set<Seq<char>> {
        self.ids@.map_values(|s: String| s@).to_set()
    }
}

impl ActiveSessions {
    /// No session under evaluation.
    pub fn new() -> (r: Self)
        ensures
            r@ == Set::<Seq<char>>::empty(),
    {
        let r = ActiveSessions { ids: Vec::new() };
        proof {
            assert(r.ids@.map_values(|s: String| s@) =~= Seq::<Seq<char>>::empty());
            assert(r@ =~= Set::<Seq<char>>::empty());
        }
        r
    }

    /// Where `id` is in the list, its position.
    fn position(&self, id: &str) -> (r: Option<usize>)
        ensures
            r matches Some(k) ==> k < self.ids@.len() && self.ids@[k as int]@ == id@,
            r is None ==> !self@.contains(id@),
    {
        let mut k: usize = 0;
        while k < self.ids.len()
            invariant
                k <= self.ids@.len(),
                forall|j: int| 0 <= j < k ==> #[trigger] self.ids@[j]@ != id@,
            decreases self.ids@.len() - k,
        {
            if str_eq(self.ids[k].as_str(), id) {
                return Some(k);
            }
            k = k + 1;
        }
        proof {
            if self@.contains(id@) {
                let views = self.ids@.map_values(|s: String| s@);
                let j = choose|j: int| 0 <= j < views.len() && views[j] == id@;
                assert(self.ids@[j]@ == id@);
            }
        }
        None
    }

    /// Whether the session's code is being evaluated.
    pub fn has_active_evaluation(&self, id: &str) -> (r: bool)
        ensures
            r == self@.contains(id@),
    {
        match self.position(id) {
            Some(k) => {
                proof {
                    let views = self.ids@.map_values(|s: String| s@);
                    assert(views[k as int] == id@);
                }
                true
            },
            None => false,
        }
    }

    /// Marks the session as under evaluation.
    pub fn start_evaluation(&mut self, id: &str)
        ensures
            final(self)@ == old(self)@.insert(id@),
    {
        match self.position(id) {
            Some(k) => {
                proof {
                    let views = self.ids@.map_values(|s: String| s@);
                    assert(views[k as int] == id@);
                    assert(self@.insert(id@) =~= self@);
                }
            },
            None => {
                let ghost before = self.ids@;
                self.ids.push(id.to_owned());
                proof {
                    let vb = before.map_values(|s: String| s@);
                    let va = self.ids@.map_values(|s: String| s@);
                    assert(va =~= vb.push(id@));
                    assert(va.to_set() =~= vb.to_set().insert(id@)) by {
                        vb.lemma_push_to_set_commute(id@);
                    }
                }
            },
        }
    }

    /// Marks the session's evaluation as ended.
    pub fn end_evaluation(&mut self, id: &str)
        ensures
            final(self)@ == old(self)@.remove(id@),
    {
        let mut k: usize = 0;
        while k < self.ids.len()
            invariant
                k <= self.ids@.len(),
                forall|j: int| 0 <= j < k ==> #[trigger] self.ids@[j]@ != id@,
                self@.remove(id@) == old(self)@.remove(id@),
            decreases self.ids@.len() - k,
        {
            if str_eq(self.ids[k].as_str(), id) {
                let ghost before = self.ids@;
                self.ids.remove(k);
                proof {
                    let vb = before.map_values(|s: String| s@);
                    let va = self.ids@.map_values(|s: String| s@);
                    assert(va =~= vb.remove(k as int));
                    assert forall|x: Seq<char>| va.to_set().remove(id@).contains(x) == vb.to_set().remove(id@).contains(x) by {
                        if x != id@ {
                            if vb.contains(x) {
                                let j = choose|j: int| 0 <= j < vb.len() && vb[j] == x;
                                assert(j != k);
                                if j < k {
                                    assert(va[j] == x);
                                } else {
                                    assert(va[j - 1] == x);
                                }
                            }
                            if va.contains(x) {
                                let j = choose|j: int| 0 <= j < va.len() && va[j] == x;
                                if j < k {
                                    assert(vb[j] == x);
                                } else {
                                    assert(vb[j + 1] == x);
                                }
                            }
                        }
                    }
                    assert(va.to_set().remove(id@) =~= vb.to_set().remove(id@));
                    assert forall|j: int| 0 <= j < k implies #[trigger] self.ids@[j]@ != id@ by {
                        assert(self.ids@[j] == before[j]);
                    }
                }
            } else {
                k = k + 1;
            }
        }
        proof {
            if self@.contains(id@) {
                let views = self.ids@.map_values(|s: String| s@);
                let j = choose|j: int| 0 <= j < views.len() && views[j] == id@;
                assert(self.ids@[j]@ == id@);
            }
            assert(self@.remove(id@) =~= self@);
        }
    }
}

} // verus!
