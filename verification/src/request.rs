//! Building the one outgoing request: the endpoint address from the bot
//! token, and the form fields from the message text, the two recipient
//! identifiers and the silent flag.

use vstd::prelude::*;
use vstd::string::StringExecFns;
use crate::message::{format_message, message_view, opt_view};

verus! {

/// The endpoint address: the fixed base, the bot token, the fixed method.
pub open spec fn url_view(token: Seq<char>) -> Seq<char> {
    "https://api.telegram.org/bot"@ + token + "/sendMessage"@
}

/// The form fields of the request. Without the silent flag: the primary
/// recipient, the text, and the parse mode, in that order, and no other
/// field. With it: the alternate recipient instead, and one more field
/// that switches the notification off.
pub open spec fn form_fields_view(
    chat_id: Seq<char>,
    chat_id_silent: Seq<char>,
    text: Seq<char>,
    silent: bool,
) -> Seq<(Seq<char>, Seq<char>)> {
    if silent {
        seq![
            ("chat_id"@, chat_id_silent),
            ("text"@, text),
            ("parse_mode"@, "HTML"@),
            ("disable_notification"@, "true"@),
        ]
    } else {
        seq![("chat_id"@, chat_id), ("text"@, text), ("parse_mode"@, "HTML"@)]
    }
}

/// Builds the endpoint address for a bot token.
pub fn build_url(token: &str) -> (r: String)
    ensures
        r@ == url_view(token@),
{
    let mut u = String::from_str("https://api.telegram.org/bot");
    u.append(token);
    u.append("/sendMessage");
    u
}

/// Builds the form fields for a message text.
pub fn form_fields(
    chat_id: &str,
    chat_id_silent: &str,
    text: &str,
    silent: bool,
) -> (r: Vec<(String, String)>)
    ensures
        r.deep_view() == form_fields_view(chat_id@, chat_id_silent@, text@, silent),
{
    let mut r: Vec<(String, String)> = Vec::new();
    if silent {
        r.push((String::from_str("chat_id"), String::from_str(chat_id_silent)));
    } else {
        r.push((String::from_str("chat_id"), String::from_str(chat_id)));
    }
    r.push((String::from_str("text"), String::from_str(text)));
    r.push((String::from_str("parse_mode"), String::from_str("HTML")));
    if silent {
        r.push((String::from_str("disable_notification"), String::from_str("true")));
    }
    proof {
        assert(r.deep_view() =~= form_fields_view(chat_id@, chat_id_silent@, text@, silent));
    }
    r
}

/// One ready-to-send request: the endpoint address and the form fields.
pub struct Delivery {
    pub url: String,
    pub fields: Vec<(String, String)>,
}

/// Builds the whole request: formats the message from the title and the
/// body, addresses it to the recipient that the silent flag selects, and
/// adds the notification-suppression field exactly when that flag is set.
pub fn build_request(
    token: &str,
    chat_id: &str,
    chat_id_silent: &str,
    title: Option<&str>,
    body: &str,
    silent: bool,
) -> (r: Delivery)
    ensures
        r.url@ == url_view(token@),
        r.fields.deep_view() == form_fields_view(
            chat_id@,
            chat_id_silent@,
            message_view(opt_view(title), body@),
            silent,
        ),
{
    let msg = format_message(title, body);
    Delivery { url: build_url(token), fields: form_fields(chat_id, chat_id_silent, msg.as_str(), silent) }
}

/// The silent flag selects the alternate recipient and appends the field
/// that switches the notification off; without it the primary recipient
/// is named and no field of that name occurs at all.
pub proof fn lemma_silent_flag(chat_id: Seq<char>, chat_id_silent: Seq<char>, text: Seq<char>)
    ensures
        form_fields_view(chat_id, chat_id_silent, text, true)[0] == ("chat_id"@, chat_id_silent),
        form_fields_view(chat_id, chat_id_silent, text, true).last() == (
            "disable_notification"@,
            "true"@,
        ),
        form_fields_view(chat_id, chat_id_silent, text, false)[0] == ("chat_id"@, chat_id),
        forall|i: int|
            0 <= i < form_fields_view(chat_id, chat_id_silent, text, false).len()
                ==> (#[trigger] form_fields_view(chat_id, chat_id_silent, text, false)[i]).0
                != "disable_notification"@,
{
    reveal_strlit("chat_id");
    reveal_strlit("text");
    reveal_strlit("parse_mode");
    reveal_strlit("disable_notification");
    let plain = form_fields_view(chat_id, chat_id_silent, text, false);
    assert forall|i: int| 0 <= i < plain.len() implies (#[trigger] plain[i]).0
        != "disable_notification"@ by {
        assert(plain[i].0.len() != "disable_notification"@.len());
    }
}

} // verus!
