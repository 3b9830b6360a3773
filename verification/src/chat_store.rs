//! The chat log of one character: its messages, kept to at most
//! [`MAX_MESSAGES`] (the oldest dropped first), and where it is stored.
//!
//! The log changes here; writing it to disk (a JSON line per message plus a
//! small metadata file) is left to the caller, which is told whether an
//! append can be written as one more line or needs the whole log rewritten.
use vstd::prelude::*;
use crate::adapter::{ChatMessage, MessageModel};
use crate::paths::{char_dir_spec, join_spec, path_join};

verus! {

broadcast use vstd::string::group_string_axioms;

/// The most messages a log keeps.
pub const MAX_MESSAGES: usize = 1000;

/// The chat log of one character.
#[derive(Debug, Clone)]
pub struct ChatLog {
    pub session_id: String,
    pub character_id: String,
    /// User and assistant messages, oldest first.
    pub messages: Vec<ChatMessage>,
    /// RFC 3339 time of creation.
    pub created_at: String,
    /// RFC 3339 time of the last change.
    pub updated_at: String,
}

pub open spec fn message_views(s: Seq<ChatMessage>) -> Seq<MessageModel> {
    s.map_values(|m: ChatMessage| m@)
}

/// The last `n` messages (all when there are fewer).
pub open spec fn recent_spec(ms: Seq<MessageModel>, n: nat) -> Seq<MessageModel> {
    if n >= ms.len() {
        ms
    } else {
        ms.subrange(ms.len() - n, ms.len() as int)
    }
}

/// The recent history is the tail of the log in the log's own order: `n`
/// messages (all of them when the log is shorter), the `i`-th of which is the
/// message that stands `n - i` places from the end.
pub proof fn lemma_recent_is_last_n(ms: Seq<MessageModel>, n: nat)
    ensures
        recent_spec(ms, n).len() == if n < ms.len() {
            n
        } else {
            ms.len()
        },
        forall|i: int|
            0 <= i < recent_spec(ms, n).len() ==> #[trigger] recent_spec(ms, n)[i] == ms[ms.len()
                - recent_spec(ms, n).len() + i],
{
}

/// The messages after appending `m`: the oldest dropped so that at most
/// [`MAX_MESSAGES`] remain.
pub open spec fn appended(ms: Seq<MessageModel>, m: MessageModel) -> Seq<MessageModel> {
    let all = ms.push(m);
    if all.len() > MAX_MESSAGES {
        all.subrange(all.len() - MAX_MESSAGES, all.len() as int)
    } else {
        all
    }
}

/// The result of a generation step run without finishing the turn.
#[derive(Debug, Clone)]
pub struct GenerationStepResult {
    /// The upstream output before filtering.
    pub raw_acc: String,
    /// The output after the streaming filter.
    pub cleaned_acc: String,
    /// The unpacked chunks, each as its debug text.
    pub chunks: Vec<String>,
    /// The upstream stream error, if one ended the step.
    pub error: Option<String>,
}

/// `root/characters/{id}/history/{file}`
pub open spec fn history_file_spec(root: Seq<char>, id: Seq<char>, file: Seq<char>) -> Seq<char> {
    join_spec(join_spec(char_dir_spec(root, id), "history"@), file)
}

fn char_file(data_root: &str, character_id: &str, file: &str) -> (r: String)
    ensures
        r@ == join_spec(char_dir_spec(data_root@, character_id@), file@),
{
    let c = path_join(data_root, "characters");
    let d = path_join(c.as_str(), character_id);
    path_join(d.as_str(), file)
}

fn history_file(data_root: &str, character_id: &str, file: &str) -> (r: String)
    ensures
        r@ == history_file_spec(data_root@, character_id@, file@),
{
    let c = path_join(data_root, "characters");
    let d = path_join(c.as_str(), character_id);
    let h = path_join(d.as_str(), "history");
    path_join(h.as_str(), file)
}

impl ChatLog {
    /// A new, empty log for `character_id`, with the session id and the
    /// time of creation (RFC 3339) that the caller gives: a fresh UUID and
    /// the current time, which come from outside the library.
    pub fn new(character_id: &str, session_id: String, now: String) -> (r: ChatLog)
        ensures
            r.character_id@ == character_id@,
            r.session_id@ == session_id@,
            r.messages@.len() == 0,
            r.created_at@ == now@,
            r.updated_at@ == now@,
    {
        let created = crate::text::string_of(&crate::text::chars_of(now.as_str()));
        ChatLog {
            session_id,
            character_id: crate::text::string_of(&crate::text::chars_of(character_id)),
            messages: Vec::new(),
            created_at: created,
            updated_at: now,
        }
    }

    /// `characters/{id}/history/chat_log.jsonl`: the messages, one JSON line each.
    pub fn jsonl_path(data_root: &str, character_id: &str) -> (r: String)
        ensures
            r@ == history_file_spec(data_root@, character_id@, "chat_log.jsonl"@),
    {
        history_file(data_root, character_id, "chat_log.jsonl")
    }

    /// `characters/{id}/history/chat_log_meta.json`: session id and timestamps.
    pub fn meta_path(data_root: &str, character_id: &str) -> (r: String)
        ensures
            r@ == history_file_spec(data_root@, character_id@, "chat_log_meta.json"@),
    {
        history_file(data_root, character_id, "chat_log_meta.json")
    }

    /// `characters/{id}/chat_log.jsonl`: where older versions kept the messages.
    pub fn pre_cf2_jsonl_path(data_root: &str, character_id: &str) -> (r: String)
        ensures
            r@ == join_spec(char_dir_spec(data_root@, character_id@), "chat_log.jsonl"@),
    {
        char_file(data_root, character_id, "chat_log.jsonl")
    }

    /// `characters/{id}/chat_log_meta.json`: where older versions kept the metadata.
    pub fn pre_cf2_meta_path(data_root: &str, character_id: &str) -> (r: String)
        ensures
            r@ == join_spec(char_dir_spec(data_root@, character_id@), "chat_log_meta.json"@),
    {
        char_file(data_root, character_id, "chat_log_meta.json")
    }

    /// `characters/{id}/chat_log.json`: the single-file format of the oldest versions.
    pub fn legacy_path(data_root: &str, character_id: &str) -> (r: String)
        ensures
            r@ == join_spec(char_dir_spec(data_root@, character_id@), "chat_log.json"@),
    {
        char_file(data_root, character_id, "chat_log.json")
    }

    /// The last `n` messages, oldest first (all of them when there are fewer).
    pub fn recent(&self, n: usize) -> (r: Vec<ChatMessage>)
        ensures
            message_views(r@) == recent_spec(message_views(self.messages@), n as nat),
            r.len() == if n < self.messages.len() {
                n as int
            } else {
                self.messages.len() as int
            },
            forall|i: int|
                0 <= i < r.len() ==> #[trigger] message_views(r@)[i] == message_views(self.messages@)[self.messages.len()
                    - r.len() + i],
    {
        proof {
            lemma_recent_is_last_n(message_views(self.messages@), n as nat);
        }
        let len = self.messages.len();
        let start: usize = if n >= len {
            0
        } else {
            len - n
        };
        let ghost ms = message_views(self.messages@);
        let mut out: Vec<ChatMessage> = Vec::new();
        let mut i = start;
        proof {
            assert(message_views(out@) =~= ms.subrange(start as int, start as int));
        }
        while i < len
            invariant
                start <= i <= len,
                len == self.messages.len(),
                ms == message_views(self.messages@),
                message_views(out@) == ms.subrange(start as int, i as int),
            decreases len - i,
        {
            let m = self.messages[i].copy();
            let ghost before = message_views(out@);
            out.push(m);
            proof {
                assert(message_views(out@) =~= before.push(m@));
                assert(ms.subrange(start as int, i + 1) =~= ms.subrange(start as int, i as int).push(
                    ms[i as int],
                ));
            }
            i = i + 1;
        }
        proof {
            if n >= len {
                assert(ms.subrange(0, len as int) =~= ms);
            }
        }
        out
    }

    /// Appends `msg` at the time `now`: the oldest messages are dropped so
    /// that at most [`MAX_MESSAGES`] remain, and `updated_at` becomes `now`.
    /// Gives `true` when messages were dropped, so that the whole log must be
    /// rewritten rather than one line appended.
    pub fn append(&mut self, msg: ChatMessage, now: String) -> (rewrite: bool)
        ensures
            message_views(final(self).messages@) == appended(message_views(old(self).messages@), msg@),
            rewrite == (old(self).messages@.len() + 1 > MAX_MESSAGES),
            final(self).updated_at@ == now@,
            final(self).session_id == old(self).session_id,
            final(self).character_id == old(self).character_id,
            final(self).created_at == old(self).created_at,
    {
        let ghost before = message_views(self.messages@);
        let ghost mv = msg@;
        self.messages.push(msg);
        assert(message_views(self.messages@) =~= before.push(mv));
        self.updated_at = now;
        if self.messages.len() > MAX_MESSAGES {
            let drop = self.messages.len() - MAX_MESSAGES;
            let ghost all = self.messages@;
            let kept = self.messages.split_off(drop);
            self.messages = kept;
            assert(message_views(self.messages@) =~= message_views(all).subrange(
                drop as int,
                all.len() as int,
            ));
            return true;
        }
        false
    }

    /// Drops the last `n` messages (all of them when there are fewer), at the
    /// time `now`.
    pub fn delete_last_n(&mut self, n: usize, now: String)
        ensures
            message_views(final(self).messages@) == if n > old(self).messages@.len() {
                Seq::<MessageModel>::empty()
            } else {
                message_views(old(self).messages@).subrange(0, old(self).messages@.len() - n)
            },
            final(self).updated_at@ == now@,
            final(self).session_id == old(self).session_id,
            final(self).character_id == old(self).character_id,
            final(self).created_at == old(self).created_at,
    {
        let len = self.messages.len();
        let ghost before = self.messages@;
        if n > len {
            self.messages.clear();
            assert(message_views(self.messages@) =~= Seq::<MessageModel>::empty());
        } else {
            self.messages.truncate(len - n);
            assert(message_views(self.messages@) =~= message_views(before).subrange(
                0,
                (len - n) as int,
            ));
        }
        self.updated_at = now;
    }

    /// Keeps the messages up to and including `index`, at the time `now`;
    /// nothing changes when there is no message `index`. Gives whether the
    /// log changed (and must be saved).
    pub fn rollback_to(&mut self, index: usize, now: String) -> (changed: bool)
        ensures
            changed == (index < old(self).messages@.len()),
            message_views(final(self).messages@) == if changed {
                message_views(old(self).messages@).subrange(0, index + 1)
            } else {
                message_views(old(self).messages@)
            },
            final(self).updated_at@ == if changed {
                now@
            } else {
                old(self).updated_at@
            },
            final(self).session_id == old(self).session_id,
            final(self).character_id == old(self).character_id,
            final(self).created_at == old(self).created_at,
    {
        if index < self.messages.len() {
            let ghost before = self.messages@;
            self.messages.truncate(index + 1);
            assert(message_views(self.messages@) =~= message_views(before).subrange(
                0,
                index + 1,
            ));
            self.updated_at = now;
            true
        } else {
            false
        }
    }
}

/// After an append the log holds at most [`MAX_MESSAGES`] messages, the
/// newest last, and the most recent message is the one appended.
pub proof fn lemma_append_then_recent(ms: Seq<MessageModel>, m: MessageModel)
    ensures
        appended(ms, m).len() <= MAX_MESSAGES,
        appended(ms, m).last() == m,
        recent_spec(appended(ms, m), 1) == seq![m],
{
    let a = appended(ms, m);
    assert(a.last() == m);
    if a.len() > 1 {
        assert(a.subrange(a.len() - 1, a.len() as int) =~= seq![m]);
    } else {
        assert(a =~= seq![m]);
    }
}

} // verus!
