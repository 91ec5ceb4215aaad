//! The host side of the browser extension's messages: what to do with a
//! message, and what to answer.

use crate::pocket::modify::{Action, AddUrlRequest};
use crate::text::{same_text, texts};
use url::Url;
use vstd::prelude::*;

verus! {

/// How a request of the extension ended.
#[derive(Debug, Clone, Copy, PartialEq, Eq, Structural)]
pub enum Status {
    Success,
    Error,
}

impl Status {
    /// The word that the extension reads for this status.
    pub fn name(&self) -> (word: &'static str)
        ensures
            word@ == (match self {
                Status::Success => "Ok"@,
                Status::Error => "Error"@,
            }),
    {
        match self {
            Status::Success => "Ok",
            Status::Error => "Error",
        }
    }
}

/// An answer to the extension.
#[derive(Debug)]
pub struct Result {
    pub status: Status,
    pub message: String,
}

impl Result {
    /// An answer that reports success.
    pub fn ok(message: &str) -> (answer: Self)
        ensures
            answer.status == Status::Success,
            answer.message@ == message@,
    {
        Self { status: Status::Success, message: message.to_owned() }
    }

    /// An answer that reports a fault.
    pub fn error(message: &str) -> (answer: Self)
        ensures
            answer.status == Status::Error,
            answer.message@ == message@,
    {
        Self { status: Status::Error, message: message.to_owned() }
    }
}

/// What the host does with a message: the page to add to the collection, if
/// any, and the answers to send after that, in this order.
#[derive(Debug)]
pub struct Plan {
    pub save: Option<AddUrlRequest>,
    pub answers: Vec<Result>,
}

/// Decides what to do with a message of the extension.
///
/// The action `save` adds the page under its title, tagged `readlater`. Any
/// other action is answered as invalid. Either way the last answer reports
/// that the page was added.
pub fn plan(action: &str, url: Url, title: String) -> (plan: Plan)
    ensures
        action@ == "save"@ ==> {
            &&& plan.save is Some
            &&& plan.save->Some_0.action == Action::Add
            &&& plan.save->Some_0.url == url
            &&& plan.save->Some_0.title == Some(title)
            &&& texts(plan.save->Some_0.tags@) == seq!["readlater"@]
            &&& plan.save->Some_0.tweet_id is None
            &&& plan.answers@.len() == 1
        },
        action@ != "save"@ ==> {
            &&& plan.save is None
            &&& plan.answers@.len() == 2
            &&& plan.answers@[0].status == Status::Error
            &&& plan.answers@[0].message@ == "Invalid action"@
        },
        plan.answers@.last().status == Status::Success,
        plan.answers@.last().message@ == "URL added to Pocket"@,
{
    let mut answers: Vec<Result> = Vec::new();
    let save = if same_text(action, "save") {
        let mut tags: Vec<String> = Vec::new();
        tags.push("readlater".to_owned());
        proof {
            assert(texts(tags@) =~= seq!["readlater"@]);
        }
        Some(AddUrlRequest::new(url).title(title).tags(tags))
    } else {
        answers.push(Result::error("Invalid action"));
        None
    };
    answers.push(Result::ok("URL added to Pocket"));
    Plan { save, answers }
}

/// The file in which a browser looks for the manifest of the host `name`,
/// below the home directory `home`.
pub fn manifest_path(home: &str, name: &str) -> (path: String)
    ensures
        path@ == home@ + "/.mozilla/native-messaging-hosts/"@ + name@ + ".json"@,
{
    let mut path = home.to_owned();
    path.append("/.mozilla/native-messaging-hosts/");
    path.append(name);
    path.append(".json");
    path
}

} // verus!
