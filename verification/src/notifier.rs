//! Where alert texts go: the HTTP posts that hand a text to the configured chat channels.

use vstd::prelude::*;
use vstd::string::*;

verus! {

/// The value of a field of a JSON object.
pub enum FieldValue {
    Text(String),
    Flag(bool),
}

/// A field of a JSON object.
pub struct Field {
    pub name: String,
    pub value: FieldValue,
}

/// A chat channel.
#[derive(Clone, Copy, Debug, PartialEq, Eq, Structural)]
pub enum Channel {
    Slack,
    Telegram,
}

/// An HTTP POST of a JSON object with these fields, to a channel.
pub struct Post {
    pub channel: Channel,
    pub url: String,
    pub body: Vec<Field>,
}

/// What a `FieldValue` holds.
pub enum FieldValueView {
    Text(Seq<char>),
    Flag(bool),
}

/// What a `Post` holds: its target, and the fields of its body by name.
pub struct PostView {
    pub channel: Channel,
    pub url: Seq<char>,
    pub body: Seq<(Seq<char>, FieldValueView)>,
}

impl View for FieldValue {
    type V = FieldValueView;

    open spec fn view(&self) -> FieldValueView {
        match self {
            FieldValue::Text(t) => FieldValueView::Text(t@),
            FieldValue::Flag(b) => FieldValueView::Flag(*b),
        }
    }
}

impl View for Post {
    type V = PostView;

    open spec fn view(&self) -> PostView {
        PostView {
            channel: self.channel,
            url: self.url@,
            body: self.body@.map_values(|f: Field| (f.name@, f.value@)),
        }
    }
}

/// The chat channels that are configured.
pub struct Notifier {
    pub slack_webhook_url: Option<String>,
    pub telegram_bot_token: Option<String>,
    pub telegram_chat_id: Option<String>,
}

/// The post that hands `text` to the Slack webhook `url`. `link_names` makes Slack turn `@handle`
/// and `#channel` in the text into mentions.
pub open spec fn slack_post(url: Seq<char>, text: Seq<char>) -> PostView {
    PostView {
        channel: Channel::Slack,
        url,
        body: seq![
            ("text"@, FieldValueView::Text(text)),
            ("link_names"@, FieldValueView::Flag(true)),
        ],
    }
}

/// The post that makes the Telegram bot with this token say `text` in the chat.
pub open spec fn telegram_post(token: Seq<char>, chat_id: Seq<char>, text: Seq<char>) -> PostView {
    PostView {
        channel: Channel::Telegram,
        url: "https://api.telegram.org/bot"@ + token + "/sendMessage"@,
        body: seq![
            ("chat_id"@, FieldValueView::Text(chat_id)),
            ("text"@, FieldValueView::Text(text)),
        ],
    }
}

impl Notifier {
    /// The posts that `text` takes: one to Slack if it has a webhook, then one to Telegram if it
    /// has both a token and a chat.
    pub open spec fn posts_of(self, text: Seq<char>) -> Seq<PostView> {
        let slack = match self.slack_webhook_url {
            Some(url) => seq![slack_post(url@, text)],
            None => seq![],
        };
        let telegram = match (self.telegram_bot_token, self.telegram_chat_id) {
            (Some(token), Some(chat_id)) => seq![telegram_post(token@, chat_id@, text)],
            _ => seq![],
        };
        slack + telegram
    }

    /// The posts to make, in this order, for `text`.
    pub fn posts(&self, text: &str) -> (res: Vec<Post>)
        ensures
            res@.map_values(|p: Post| p@) == self.posts_of(text@),
            forall|i: int|
                0 <= i < res@.len() ==> {
                    let post = #[trigger] res@[i];
                    match post.channel {
                        Channel::Slack => {
                            &&& self.slack_webhook_url is Some
                            &&& post.url@ == self.slack_webhook_url->0@
                            &&& post.body@.len() == 2
                            &&& post.body@[0].name@ == "text"@
                            &&& post.body@[0].value is Text
                            &&& post.body@[0].value->Text_0@ == text@
                            &&& post.body@[1].name@ == "link_names"@
                            &&& post.body@[1].value == FieldValue::Flag(true)
                        },
                        Channel::Telegram => {
                            &&& self.telegram_bot_token is Some
                            &&& self.telegram_chat_id is Some
                            &&& post.url@ == "https://api.telegram.org/bot"@
                                + self.telegram_bot_token->0@ + "/sendMessage"@
                            &&& post.body@.len() == 2
                            &&& post.body@[0].name@ == "chat_id"@
                            &&& post.body@[0].value is Text
                            &&& post.body@[0].value->Text_0@ == self.telegram_chat_id->0@
                            &&& post.body@[1].name@ == "text"@
                            &&& post.body@[1].value is Text
                            &&& post.body@[1].value->Text_0@ == text@
                        },
                    }
                },
    {
        let mut res: Vec<Post> = Vec::new();
        if let Some(url) = &self.slack_webhook_url {
            let mut body: Vec<Field> = Vec::new();
            body.push(
                Field { name: "text".to_owned(), value: FieldValue::Text(text.to_owned()) },
            );
            body.push(Field { name: "link_names".to_owned(), value: FieldValue::Flag(true) });
            let post = Post { channel: Channel::Slack, url: url.clone(), body };
            assert(post@.body =~= slack_post(url@, text@).body);
            res.push(post);
        }
        if let (Some(token), Some(chat_id)) = (&self.telegram_bot_token, &self.telegram_chat_id) {
            let url = "https://api.telegram.org/bot".to_owned().concat(token.as_str()).concat(
                "/sendMessage",
            );
            let mut body: Vec<Field> = Vec::new();
            body.push(
                Field { name: "chat_id".to_owned(), value: FieldValue::Text(chat_id.clone()) },
            );
            body.push(
                Field { name: "text".to_owned(), value: FieldValue::Text(text.to_owned()) },
            );
            let post = Post { channel: Channel::Telegram, url, body };
            assert(post@.body =~= telegram_post(token@, chat_id@, text@).body);
            res.push(post);
        }
        assert(res@.map_values(|p: Post| p@) =~= self.posts_of(text@));
        res
    }

    /// Whether any channel is completely configured; if not, alerts can only be logged.
    pub fn has_channel(&self) -> (res: bool)
        ensures
            res == (self.slack_webhook_url is Some || (self.telegram_bot_token is Some
                && self.telegram_chat_id is Some)),
    {
        !(self.slack_webhook_url.is_none() && (self.telegram_bot_token.is_none()
            || self.telegram_chat_id.is_none()))
    }
}

/// A text is posted somewhere exactly if a channel is completely configured.
pub proof fn law_posts_need_a_channel(notifier: Notifier, text: Seq<char>)
    ensures
        notifier.posts_of(text).len() > 0 <==> (notifier.slack_webhook_url is Some || (
        notifier.telegram_bot_token is Some && notifier.telegram_chat_id is Some)),
{
}

/// Every post of a text carries that text, whole and unchanged, and goes where the configuration
/// says. Slack comes first, if it has a webhook, and is told to make mentions of names; Telegram
/// comes next, if it has both a token and a chat, and is told the chat. There is no other post.
pub proof fn law_posts_carry_the_text(notifier: Notifier, text: Seq<char>)
    ensures
        ({
            let posts = notifier.posts_of(text);
            let slack = notifier.slack_webhook_url is Some;
            let telegram = notifier.telegram_bot_token is Some && notifier.telegram_chat_id is Some;
            let second: int = if slack {
                1
            } else {
                0
            };
            &&& posts.len() == second + (if telegram {
                1int
            } else {
                0int
            })
            &&& slack ==> {
                &&& posts[0].channel == Channel::Slack
                &&& posts[0].url == notifier.slack_webhook_url->0@
                &&& posts[0].body.len() == 2
                &&& posts[0].body.contains(("text"@, FieldValueView::Text(text)))
                &&& posts[0].body.contains(("link_names"@, FieldValueView::Flag(true)))
            }
            &&& telegram ==> {
                &&& posts[second].channel == Channel::Telegram
                &&& posts[second].url == "https://api.telegram.org/bot"@
                    + notifier.telegram_bot_token->0@ + "/sendMessage"@
                &&& posts[second].body.len() == 2
                &&& posts[second].body.contains(
                    ("chat_id"@, FieldValueView::Text(notifier.telegram_chat_id->0@)),
                )
                &&& posts[second].body.contains(("text"@, FieldValueView::Text(text)))
            }
        }),
{
    let posts = notifier.posts_of(text);
    if notifier.slack_webhook_url is Some {
        let post = posts[0];
        assert(post.body[0] == ("text"@, FieldValueView::Text(text)));
        assert(post.body[1] == ("link_names"@, FieldValueView::Flag(true)));
    }
    if notifier.telegram_bot_token is Some && notifier.telegram_chat_id is Some {
        let post = posts[posts.len() - 1];
        let chat_id = notifier.telegram_chat_id->0@;
        assert(post.body[0] == ("chat_id"@, FieldValueView::Text(chat_id)));
        assert(post.body[1] == ("text"@, FieldValueView::Text(text)));
    }
}

/// Two texts give the same posts only if they are the same text, if there is a channel at all.
pub proof fn law_posts_tell_texts_apart(notifier: Notifier, a: Seq<char>, b: Seq<char>)
    requires
        notifier.slack_webhook_url is Some || (notifier.telegram_bot_token is Some
            && notifier.telegram_chat_id is Some),
    ensures
        notifier.posts_of(a) == notifier.posts_of(b) <==> a == b,
{
    reveal_strlit("text");
    reveal_strlit("link_names");
    reveal_strlit("chat_id");
    if notifier.posts_of(a) == notifier.posts_of(b) {
        let p = notifier.posts_of(a)[0].body;
        let q = notifier.posts_of(b)[0].body;
        assert(p[0] == q[0] && p[1] == q[1]);
    }
}

/// What a post shows is what it holds: its channel, its target, and the name and value of each of
/// its fields.
pub proof fn law_a_post_shows_what_it_holds(post: Post, i: int)
    requires
        0 <= i < post.body@.len(),
    ensures
        post@.channel == post.channel,
        post@.url == post.url@,
        post@.body.len() == post.body@.len(),
        post@.body[i].0 == post.body@[i].name@,
        match post.body@[i].value {
            FieldValue::Text(t) => post@.body[i].1 == FieldValueView::Text(t@),
            FieldValue::Flag(b) => post@.body[i].1 == FieldValueView::Flag(b),
        },
{
}

} // verus!
