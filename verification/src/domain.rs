//! Core domain entities and the error taxonomy shared by every component.
//!
//! These are plain data carriers: adapters map platform types into them and
//! the engines never see anything else.

use vstd::prelude::*;

verus! {

/// Classification of a chat.
#[derive(Debug, Clone, Copy, PartialEq, Eq, Structural)]
pub enum ChatType {
    /// Private direct conversation with one user.
    Private,
    /// Small group chat.
    Group,
    /// Supergroup (megagroup).
    Supergroup,
    /// Broadcast channel.
    Channel,
}

/// A chat the current user participates in, as listed by the dialog call.
#[derive(Debug, Clone)]
pub struct Chat {
    pub id: i64,
    pub title: String,
    pub username: Option<String>,
    pub kind: ChatType,
    /// Approximate message count heuristic taken from the dialog's last message id.
    pub approx_message_count: Option<i32>,
}

/// One prior version of a message (edit history entry).
#[derive(Debug, Clone)]
pub struct MessageEdit {
    pub date: i64,
    pub text: String,
}

/// Kind of downloadable media attached to a message.
#[derive(Debug, Clone, Copy, PartialEq, Eq, Structural)]
pub enum MediaType {
    Photo,
    Video,
    Document,
    Audio,
    Voice,
    Sticker,
    Animation,
    Other,
}

/// Reference to downloadable media, handed from the sync engine to the media
/// pipeline. The `opaque_ref` is resolved only by the gateway.
#[derive(Debug, Clone)]
pub struct MediaReference {
    pub message_id: i32,
    pub chat_id: i64,
    pub media_type: MediaType,
    pub opaque_ref: String,
}

/// A single message of a chat, identified by `(chat_id, id)`.
#[derive(Debug, Clone)]
pub struct Message {
    pub id: i32,
    pub chat_id: i64,
    pub date: i64,
    pub text: String,
    pub media: Option<MediaReference>,
    pub from_user_id: Option<i64>,
    pub reply_to_msg_id: Option<i32>,
    /// Previous versions when the message was edited, oldest first.
    pub edit_history: Option<Vec<MessageEdit>>,
}

/// Result of a sign-in attempt: either done, or a second factor is required.
#[derive(Debug, Clone)]
pub enum SignInResult {
    Success,
    PasswordRequired { hint: Option<String> },
}

/// Weekly grouping key for analysis, a string of the shape `YYYY-WW`.
#[derive(Debug, Clone, Eq, Hash)]
pub struct WeekGroup(pub String);

impl WeekGroup {
    /// Wrap a `YYYY-WW` string produced by the store's week-number function.
    pub fn new(year_week: String) -> (r: Self)
        ensures
            r.0@ == year_week@,
    {
        WeekGroup(year_week)
    }

    /// The inner string value.
    pub fn as_str(&self) -> (r: &str)
        ensures
            r@ == self.0@,
    {
        self.0.as_str()
    }
}

impl PartialEq for WeekGroup {
    fn eq(&self, other: &WeekGroup) -> (r: bool) {
        self.0 == other.0
    }
}

impl vstd::std_specs::cmp::PartialEqSpecImpl for WeekGroup {
    open spec fn obeys_eq_spec() -> bool {
        true
    }

    open spec fn eq_spec(&self, other: &WeekGroup) -> bool {
        self.0@ == other.0@
    }
}

/// Single action item extracted from a week's analysis.
#[derive(Debug, Clone)]
pub struct ActionItem {
    pub description: String,
    pub owner: Option<String>,
    pub deadline: Option<String>,
    pub priority: Option<String>,
}

/// Result of the analysis of one week of one chat.
#[derive(Debug, Clone)]
pub struct AnalysisResult {
    pub week_group: WeekGroup,
    pub chat_id: i64,
    pub summary: String,
    pub key_topics: Vec<String>,
    pub action_items: Vec<ActionItem>,
    /// Unix timestamp of when the analysis was performed.
    pub analyzed_at: i64,
}

/// Closed taxonomy of failures. Every component surfaces exactly this type.
#[derive(Debug, Clone)]
pub enum DomainError {
    /// Platform gateway failure.
    TgGateway(String),
    /// Durable store failure.
    Repo(String),
    /// Checkpoint state failure.
    State(String),
    /// External processor failure.
    Processor(String),
    /// Authentication failure.
    Auth(String),
    /// Media download failure.
    Media(String),
    /// Platform throttle: retry only after `seconds` seconds.
    FloodWait { seconds: u64 },
    /// LLM analysis failure.
    Ai(String),
    /// Task tracker failure.
    TaskTracker(String),
}

// ─── mathematical views ──────────────────────────────────────────────────────

/// Spec-level image of an `Option<String>`.
pub open spec fn opt_text_view(o: Option<String>) -> Option<Seq<char>> {
    match o {
        Option::Some(s) => Option::Some(s@),
        Option::None => Option::None,
    }
}

#[verifier::ext_equal]
pub struct MessageEditView {
    pub date: int,
    pub text: Seq<char>,
}

impl View for MessageEdit {
    type V = MessageEditView;

    open spec fn view(&self) -> MessageEditView {
        MessageEditView { date: self.date as int, text: self.text@ }
    }
}

#[verifier::ext_equal]
pub struct MediaReferenceView {
    pub message_id: int,
    pub chat_id: int,
    pub media_type: MediaType,
    pub opaque_ref: Seq<char>,
}

impl View for MediaReference {
    type V = MediaReferenceView;

    open spec fn view(&self) -> MediaReferenceView {
        MediaReferenceView {
            message_id: self.message_id as int,
            chat_id: self.chat_id as int,
            media_type: self.media_type,
            opaque_ref: self.opaque_ref@,
        }
    }
}

#[verifier::ext_equal]
pub struct MessageView {
    pub id: int,
    pub chat_id: int,
    pub date: int,
    pub text: Seq<char>,
    pub media: Option<MediaReferenceView>,
    pub from_user_id: Option<int>,
    pub reply_to_msg_id: Option<int>,
    pub edit_history: Option<Seq<MessageEditView>>,
}

impl View for Message {
    type V = MessageView;

    open spec fn view(&self) -> MessageView {
        MessageView {
            id: self.id as int,
            chat_id: self.chat_id as int,
            date: self.date as int,
            text: self.text@,
            media: match self.media {
                Option::Some(m) => Option::Some(m@),
                Option::None => Option::None,
            },
            from_user_id: match self.from_user_id {
                Option::Some(u) => Option::Some(u as int),
                Option::None => Option::None,
            },
            reply_to_msg_id: match self.reply_to_msg_id {
                Option::Some(r) => Option::Some(r as int),
                Option::None => Option::None,
            },
            edit_history: match self.edit_history {
                Option::Some(ref v) => Option::Some(v@.map_values(|e: MessageEdit| e@)),
                Option::None => Option::None,
            },
        }
    }
}

#[verifier::ext_equal]
pub struct ChatView {
    pub id: int,
    pub title: Seq<char>,
    pub username: Option<Seq<char>>,
    pub kind: ChatType,
    pub approx_message_count: Option<int>,
}

impl View for Chat {
    type V = ChatView;

    open spec fn view(&self) -> ChatView {
        ChatView {
            id: self.id as int,
            title: self.title@,
            username: opt_text_view(self.username),
            kind: self.kind,
            approx_message_count: match self.approx_message_count {
                Option::Some(n) => Option::Some(n as int),
                Option::None => Option::None,
            },
        }
    }
}

impl View for WeekGroup {
    type V = Seq<char>;

    open spec fn view(&self) -> Seq<char> {
        self.0@
    }
}

#[verifier::ext_equal]
pub struct ActionItemView {
    pub description: Seq<char>,
    pub owner: Option<Seq<char>>,
    pub deadline: Option<Seq<char>>,
    pub priority: Option<Seq<char>>,
}

impl View for ActionItem {
    type V = ActionItemView;

    open spec fn view(&self) -> ActionItemView {
        ActionItemView {
            description: self.description@,
            owner: opt_text_view(self.owner),
            deadline: opt_text_view(self.deadline),
            priority: opt_text_view(self.priority),
        }
    }
}

#[verifier::ext_equal]
pub struct AnalysisResultView {
    pub week_group: Seq<char>,
    pub chat_id: int,
    pub summary: Seq<char>,
    pub key_topics: Seq<Seq<char>>,
    pub action_items: Seq<ActionItemView>,
    pub analyzed_at: int,
}

impl View for AnalysisResult {
    type V = AnalysisResultView;

    open spec fn view(&self) -> AnalysisResultView {
        AnalysisResultView {
            week_group: self.week_group@,
            chat_id: self.chat_id as int,
            summary: self.summary@,
            key_topics: self.key_topics@.map_values(|t: String| t@),
            action_items: self.action_items@.map_values(|a: ActionItem| a@),
            analyzed_at: self.analyzed_at as int,
        }
    }
}

// ─── exact copies ────────────────────────────────────────────────────────────
//
// The derived `Clone` impls carry no specification in Verus, so each type
// gets a copy constructor whose contract pins the view of the copy.

/// Copies an optional text field.
pub fn opt_clone_string(o: &Option<String>) -> (r: Option<String>)
    ensures
        opt_text_view(r) == opt_text_view(*o),
{
    match o {
        Option::Some(s) => Option::Some(s.clone()),
        Option::None => Option::None,
    }
}

impl MessageEdit {
    /// Field-exact copy.
    pub fn duplicate(&self) -> (r: MessageEdit)
        ensures
            r@ == self@,
    {
        MessageEdit { date: self.date, text: self.text.clone() }
    }
}

impl MediaReference {
    /// Field-exact copy.
    pub fn duplicate(&self) -> (r: MediaReference)
        ensures
            r@ == self@,
    {
        MediaReference {
            message_id: self.message_id,
            chat_id: self.chat_id,
            media_type: self.media_type,
            opaque_ref: self.opaque_ref.clone(),
        }
    }
}

impl Message {
    /// Field-exact copy.
    pub fn duplicate(&self) -> (r: Message)
        ensures
            r@ == self@,
    {
        let media = match &self.media {
            Option::Some(m) => Option::Some(m.duplicate()),
            Option::None => Option::None,
        };
        let edit_history = match &self.edit_history {
            Option::Some(v) => {
                let mut out: Vec<MessageEdit> = Vec::new();
                let mut i: usize = 0;
                while i < v.len()
                    invariant
                        i <= v@.len(),
                        out@.len() == i,
                        forall|k: int| 0 <= k < i ==> #[trigger] out@[k]@ == v@[k]@,
                    decreases v@.len() - i,
                {
                    out.push(v[i].duplicate());
                    i = i + 1;
                }
                proof {
                    assert(out@.map_values(|e: MessageEdit| e@) =~~= v@.map_values(
                        |e: MessageEdit| e@,
                    ));
                }
                Option::Some(out)
            },
            Option::None => Option::None,
        };
        let r = Message {
            id: self.id,
            chat_id: self.chat_id,
            date: self.date,
            text: self.text.clone(),
            media,
            from_user_id: self.from_user_id,
            reply_to_msg_id: self.reply_to_msg_id,
            edit_history,
        };
        r
    }
}

impl Chat {
    /// Field-exact copy.
    pub fn duplicate(&self) -> (r: Chat)
        ensures
            r@ == self@,
    {
        Chat {
            id: self.id,
            title: self.title.clone(),
            username: opt_clone_string(&self.username),
            kind: self.kind,
            approx_message_count: self.approx_message_count,
        }
    }
}

impl WeekGroup {
    /// Field-exact copy.
    pub fn duplicate(&self) -> (r: WeekGroup)
        ensures
            r@ == self@,
    {
        WeekGroup(self.0.clone())
    }
}

impl ActionItem {
    /// Field-exact copy.
    pub fn duplicate(&self) -> (r: ActionItem)
        ensures
            r@ == self@,
    {
        ActionItem {
            description: self.description.clone(),
            owner: opt_clone_string(&self.owner),
            deadline: opt_clone_string(&self.deadline),
            priority: opt_clone_string(&self.priority),
        }
    }
}

impl AnalysisResult {
    /// Field-exact copy.
    pub fn duplicate(&self) -> (r: AnalysisResult)
        ensures
            r@ == self@,
    {
        let mut key_topics: Vec<String> = Vec::new();
        let mut i: usize = 0;
        while i < self.key_topics.len()
            invariant
                i <= self.key_topics@.len(),
                key_topics@.len() == i,
                forall|k: int| 0 <= k < i ==> #[trigger] key_topics@[k]@ == self.key_topics@[k]@,
            decreases self.key_topics@.len() - i,
        {
            key_topics.push(self.key_topics[i].clone());
            i = i + 1;
        }
        let mut action_items: Vec<ActionItem> = Vec::new();
        let mut j: usize = 0;
        while j < self.action_items.len()
            invariant
                j <= self.action_items@.len(),
                action_items@.len() == j,
                forall|k: int| 0 <= k < j ==> #[trigger] action_items@[k]@
                    == self.action_items@[k]@,
            decreases self.action_items@.len() - j,
        {
            action_items.push(self.action_items[j].duplicate());
            j = j + 1;
        }
        proof {
            assert(key_topics@.map_values(|t: String| t@) =~~= self.key_topics@.map_values(
                |t: String| t@,
            ));
            assert(action_items@.map_values(|a: ActionItem| a@) =~~= self.action_items@.map_values(
                |a: ActionItem| a@,
            ));
        }
        AnalysisResult {
            week_group: self.week_group.duplicate(),
            chat_id: self.chat_id,
            summary: self.summary.clone(),
            key_topics,
            action_items,
            analyzed_at: self.analyzed_at,
        }
    }
}

} // verus!
