//! Direct messages: creating one and reading a conversation.

use vstd::prelude::*;

use crate::error::AppError;
use crate::models::Message;
use crate::store::{MessageRecord, Store};
use crate::text::{message_image_key, message_key_of};

verus! {

/// Is this message part of the conversation between `a` and `b`?
pub open spec fn is_between(m: Message, a: int, b: int) -> bool {
    (m.sender_id == a && m.recipient_id == b) || (m.sender_id == b && m.recipient_id == a)
}

/// Is `m` one of the store's message rows?
pub open spec fn stored_message(s: Store, m: Message) -> bool {
    exists|k: int| 0 <= k < s.messages@.len() && m == #[trigger] s.messages@[k].message
}

/// How one `create_message` call relates the store before and after.
///
/// A missing recipient id is rejected before any write; otherwise one
/// message row is appended, carrying the next message id, and — when
/// an image came with it — the blob-store key derived from that id.
/// The only other failure is message id exhaustion.
pub open spec fn message_created(
    pre: Store,
    post: Store,
    sender: int,
    recipient: Option<i64>,
    content: Seq<char>,
    has_image: bool,
    now: Seq<char>,
    r: Result<Message, AppError>,
) -> bool {
    if recipient is None {
        post == pre && r is Err && r->Err_0 is Internal
    } else if pre.next_message_id == i64::MAX {
        post == pre && r is Err && r->Err_0 is Internal
    } else {
        &&& post.users == pre.users
        &&& post.interests == pre.interests
        &&& post.user_interests == pre.user_interests
        &&& post.likes == pre.likes
        &&& post.matches == pre.matches
        &&& post.next_user_id == pre.next_user_id
        &&& post.next_interest_id == pre.next_interest_id
        &&& post.next_match_id == pre.next_match_id
        &&& post.next_message_id == pre.next_message_id + 1
        &&& post.messages@.len() == pre.messages@.len() + 1
        &&& (forall|j: int|
            0 <= j < pre.messages@.len() ==> #[trigger] post.messages@[j] == pre.messages@[j])
        &&& post.messages@.last().message.id == pre.next_message_id
        &&& post.messages@.last().message.sender_id == sender
        &&& post.messages@.last().message.recipient_id == recipient->0
        &&& post.messages@.last().message.content@ == content
        &&& post.messages@.last().message.created_at@ == now
        &&& (has_image ==> (post.messages@.last().image_key matches Some(k) && k@
            == message_key_of(pre.next_message_id as int)))
        &&& (!has_image ==> post.messages@.last().image_key is None)
        &&& r == Ok::<Message, AppError>(post.messages@.last().message)
    }
}

impl Store {
    /// Store a new message from `sender_id`.
    ///
    /// The recipient id is required; the content may be empty. When an
    /// image accompanies the message, its blob-store key is recorded
    /// on the row (the caller uploads the bytes under that key).
    pub fn create_message(
        &mut self,
        sender_id: i64,
        recipient_id: Option<i64>,
        content: &str,
        has_image: bool,
        now: &str,
    ) -> (r: Result<Message, AppError>)
        requires
            old(self).wf(),
        ensures
            final(self).wf(),
            message_created(
                *old(self),
                *final(self),
                sender_id as int,
                recipient_id,
                content@,
                has_image,
                now@,
                r,
            ),
            recipient_id is Some && old(self).next_message_id < i64::MAX ==> r is Ok,
    {
        let recipient_id = match recipient_id {
            Some(rid) => rid,
            None => {
                return Err(AppError::Internal("missing recipient_id".to_owned()));
            },
        };
        if self.next_message_id == i64::MAX {
            return Err(AppError::Internal("message id space exhausted".to_owned()));
        }
        let id = self.next_message_id;
        let message = Message {
            id,
            sender_id,
            recipient_id,
            content: content.to_owned(),
            created_at: now.to_owned(),
        };
        let image_key = if has_image {
            Some(message_image_key(id))
        } else {
            None
        };
        let ret = message.duplicate();
        self.messages.push(MessageRecord { message, image_key });
        self.next_message_id = self.next_message_id + 1;
        proof {
            let pre = *old(self);
            let new_len = self.messages@.len() as int;
            assert forall|i: int, j: int|
                0 <= i < j < new_len implies self.messages@[i].message.id
                < self.messages@[j].message.id by {
                if j == new_len - 1 {
                    assert(self.messages@[i] == pre.messages@[i]);
                } else {
                    assert(self.messages@[i] == pre.messages@[i]);
                    assert(self.messages@[j] == pre.messages@[j]);
                }
            }
        }
        Ok(ret)
    }

    /// The conversation between `me` and `other`, oldest first.
    #[verifier::rlimit(50)]
    pub fn messages_between(&self, me: i64, other: i64) -> (out: Vec<Message>)
        requires
            self.wf(),
        ensures
            forall|i: int|
                0 <= i < out@.len() ==> is_between(#[trigger] out@[i], me as int, other as int),
            forall|i: int|
                0 <= i < out@.len() ==> stored_message(*self, #[trigger] out@[i]),
            forall|k: int|
                0 <= k < self.messages@.len() && is_between(
                    #[trigger] self.messages@[k].message,
                    me as int,
                    other as int,
                ) ==> exists|i: int| 0 <= i < out@.len() && #[trigger] out@[i]
                    == self.messages@[k].message,
            forall|i: int, j: int|
                #![trigger out@[i], out@[j]]
                0 <= i < j < out@.len() ==> out@[i].id < out@[j].id,
    {
        let n = self.messages.len();
        let mut out: Vec<Message> = Vec::new();
        let ghost mut src: Seq<int> = Seq::empty();
        let mut k: usize = 0;
        while k < n
            invariant
                self.wf(),
                n == self.messages@.len(),
                k <= n,
                src.len() == out@.len(),
                forall|i: int| 0 <= i < src.len() ==> 0 <= #[trigger] src[i] < k,
                forall|i: int|
                    #![trigger out@[i]]
                    0 <= i < out@.len() ==> out@[i] == self.messages@[src[i]].message
                        && is_between(out@[i], me as int, other as int),
                forall|i: int|
                    0 <= i < out@.len() ==> stored_message(*self, #[trigger] out@[i]),
                forall|i: int, j: int|
                    #![trigger src[i], src[j]]
                    0 <= i < j < src.len() ==> src[i] < src[j],
                forall|k2: int|
                    0 <= k2 < k && is_between(
                        #[trigger] self.messages@[k2].message,
                        me as int,
                        other as int,
                    ) ==> exists|i: int| 0 <= i < out@.len() && #[trigger] out@[i]
                        == self.messages@[k2].message,
            decreases n - k,
        {
            let row = &self.messages[k].message;
            if (row.sender_id == me && row.recipient_id == other) || (row.sender_id == other
                && row.recipient_id == me) {
                let ghost before = out@;
                let ghost old_src = src;
                out.push(row.duplicate());
                proof {
                    src = src.push(k as int);
                    assert(out@[out@.len() - 1] == self.messages@[k as int].message);
                    assert(stored_message(*self, out@[out@.len() - 1]));
                    assert forall|i: int| 0 <= i < src.len() implies 0 <= #[trigger] src[i] < k
                        + 1 by {
                        if i < old_src.len() {
                            assert(src[i] == old_src[i] && 0 <= old_src[i] < k);
                        } else {
                            assert(src[i] == k as int);
                        }
                    }
                    assert forall|i: int|
                        #![trigger out@[i]]
                        0 <= i < out@.len() implies out@[i] == self.messages@[src[i]].message
                        && is_between(out@[i], me as int, other as int) by {
                        if i < before.len() {
                            assert(out@[i] == before[i]);
                            assert(src[i] == old_src[i]);
                        } else {
                            assert(out@[i] == self.messages@[k as int].message);
                            assert(src[i] == k as int);
                        }
                    }
                    assert forall|i: int, j: int|
                        #![trigger src[i], src[j]]
                        0 <= i < j < src.len() implies src[i] < src[j] by {
                        if j == src.len() - 1 {
                            assert(src[i] == old_src[i] && 0 <= old_src[i] < k);
                            assert(src[j] == k as int);
                        } else {
                            assert(src[i] == old_src[i] && src[j] == old_src[j]);
                        }
                    }
                    assert forall|k2: int|
                        0 <= k2 < k + 1 && is_between(
                            #[trigger] self.messages@[k2].message,
                            me as int,
                            other as int,
                        ) implies exists|i: int| 0 <= i < out@.len() && #[trigger] out@[i]
                        == self.messages@[k2].message by {
                        if k2 < k {
                            let i = choose|i: int|
                                0 <= i < before.len()
                                    && #[trigger] before[i] == self.messages@[k2].message;
                            assert(out@[i] == self.messages@[k2].message);
                        } else {
                            assert(out@[out@.len() - 1] == self.messages@[k2].message);
                        }
                    }
                }
            }
            k += 1;
        }
        proof {
            assert forall|i: int, j: int|
                #![trigger out@[i], out@[j]]
                0 <= i < j < out@.len() implies out@[i].id < out@[j].id by {
                assert(src[i] < src[j]);
                assert(self.messages@[src[i]].message.id < self.messages@[src[j]].message.id);
            }
        }
        out
    }

    /// The blob-store key of a message's image: present only when the
    /// message exists and one was stored with it.
    pub fn message_image_key_of(&self, message_id: i64) -> (r: Option<&String>)
        requires
            self.wf(),
        ensures
            match r {
                Some(key) => exists|k: int|
                    0 <= k < self.messages@.len() && #[trigger] self.messages@[k].message.id
                        == message_id && self.messages@[k].image_key == Some(*key),
                None => forall|k: int|
                    0 <= k < self.messages@.len() && #[trigger] self.messages@[k].message.id
                        == message_id ==> self.messages@[k].image_key is None,
            },
    {
        let n = self.messages.len();
        let mut k: usize = 0;
        while k < n
            invariant
                self.wf(),
                n == self.messages@.len(),
                k <= n,
                forall|j: int|
                    0 <= j < k ==> #[trigger] self.messages@[j].message.id != message_id,
            decreases n - k,
        {
            if self.messages[k].message.id == message_id {
                return match &self.messages[k].image_key {
                    Some(key) => Some(key),
                    None => {
                        proof {
                            assert forall|j: int|
                                0 <= j < n && #[trigger] self.messages@[j].message.id == message_id
                                implies self.messages@[j].image_key is None by {
                                if j != k {
                                    if j < k {
                                        assert(self.messages@[j].message.id
                                            < self.messages@[k as int].message.id);
                                    } else {
                                        assert(self.messages@[k as int].message.id
                                            < self.messages@[j].message.id);
                                    }
                                }
                            }
                        }
                        None
                    },
                };
            }
            k += 1;
        }
        None
    }
}

} // verus!
