//! The event dispatcher: filters message-created events to the one
//! authorized channel, drops excluded authors, ingests accepted text, and
//! answers trigger-prefixed messages with generated text.

use vstd::prelude::*;
use crate::chain::GeneratedText;
use crate::chain::generate;
use crate::chain::generated;
use crate::ingest::ingest;
use crate::ingest::pair_seq;
use crate::store::WordPairStore;
use crate::text::after_first_space;
use crate::text::has_prefix;
use crate::text::is_prefix_of;
use crate::text::split_after_first_space;
use crate::text::tokens_of;

verus! {

/// The dispatcher's configuration: the one authorized source channel, the
/// excluded author identities (the bot's own identity among them), the
/// trigger prefix that marks a generation request, and the generation word
/// bound.
pub struct DispatchConfig {
    pub authorized_channel: u64,
    pub excluded_authors: Vec<u64>,
    pub trigger: String,
    pub max_words: u32,
}

/// One message-created event, as plain values: where it was posted, by whom,
/// its own identity, and its text.
pub struct MessageEvent {
    pub channel: u64,
    pub author: u64,
    pub message: u64,
    pub content: String,
}

/// A reply to send back: the target channel, the message replied to, and the
/// text content.
pub struct Reply {
    pub channel: u64,
    pub reply_to: u64,
    pub content: String,
}

/// The filter predicate: a message qualifies exactly when it was posted in
/// the authorized channel by an author outside the exclusion set.
pub open spec fn accepts(cfg: &DispatchConfig, msg: &MessageEvent) -> bool {
    msg.channel == cfg.authorized_channel && !cfg.excluded_authors@.contains(msg.author)
}

/// Whether the message text requests generation: it begins with the trigger
/// prefix.
pub open spec fn triggers(cfg: &DispatchConfig, msg: &MessageEvent) -> bool {
    is_prefix_of(cfg.trigger@, msg.content@)
}

/// The fixed apology text sent when the model has no data or found no
/// continuation.
pub open spec fn apology() -> Seq<char> {
    "I'm too dumb for this D:"@
}

/// The reply rendering of a generation outcome: generated text is sent as it
/// is; `Empty` and `Unavailable` both render the fixed apology.
pub open spec fn render(g: GeneratedText) -> Seq<char> {
    match g {
        GeneratedText::Text(t) => t@,
        GeneratedText::Empty => apology(),
        GeneratedText::Unavailable => apology(),
    }
}

/// The fixed apology text, as a value to send.
pub fn apology_text() -> (s: String)
    ensures
        s@ == apology(),
{
    String::from_str("I'm too dumb for this D:")
}

/// Whether `author` is one of the configured excluded identities.
#[verifier::loop_isolation(false)]
fn author_excluded(cfg: &DispatchConfig, author: u64) -> (b: bool)
    ensures
        b == cfg.excluded_authors@.contains(author),
{
    let mut i: usize = 0;
    while i < cfg.excluded_authors.len()
        invariant
            i <= cfg.excluded_authors@.len(),
            forall|q: int| 0 <= q < i ==> cfg.excluded_authors@[q] != author,
        decreases cfg.excluded_authors@.len() - i,
    {
        if cfg.excluded_authors[i] == author {
            return true;
        }
        i = i + 1;
    }
    false
}

/// Handles one message-created event. A message outside the authorized
/// channel, or from an excluded author, changes nothing and yields no reply,
/// whatever it says. An accepted message is always ingested; it yields a
/// reply exactly when it begins with the trigger prefix, and the reply is
/// addressed to the triggering message in its channel, carrying either text
/// generated from the store as just updated (seeded with the message text
/// after its first space, if any) or the fixed apology.
pub fn handle_message(store: &mut WordPairStore, cfg: &DispatchConfig, msg: &MessageEvent) -> (r:
    Option<Reply>)
    ensures
        !accepts(cfg, msg) ==> final(store)@ == old(store)@ && r is None,
        accepts(cfg, msg) ==> final(store)@ == old(store)@ + pair_seq(tokens_of(msg.content@)),
        r is Some <==> (accepts(cfg, msg) && triggers(cfg, msg)),
        r matches Some(rep) ==> {
            &&& rep.channel == msg.channel
            &&& rep.reply_to == msg.message
            &&& exists|g: GeneratedText|
                #[trigger] generated(final(store)@, after_first_space(msg.content@), cfg.max_words, g)
                    && rep.content@ == render(g)
        },
{
    if msg.channel != cfg.authorized_channel {
        return None;
    }
    if author_excluded(cfg, msg.author) {
        return None;
    }
    ingest(store, msg.content.as_str());
    if has_prefix(msg.content.as_str(), cfg.trigger.as_str()) {
        let seed = split_after_first_space(msg.content.as_str());
        let g = match &seed {
            Some(s) => generate(store, Some(s.as_str()), cfg.max_words),
            None => generate(store, None, cfg.max_words),
        };
        let ghost gg = g;
        proof {
            assert(generated(store@, after_first_space(msg.content@), cfg.max_words, gg));
        }
        let content = match g {
            GeneratedText::Text(t) => t,
            GeneratedText::Empty => apology_text(),
            GeneratedText::Unavailable => apology_text(),
        };
        proof {
            assert(content@ == render(gg));
        }
        Some(Reply { channel: msg.channel, reply_to: msg.message, content })
    } else {
        None
    }
}

} // verus!
