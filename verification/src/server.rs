//! The decisions of the language server: which notifications change which
//! document, when to register folding support dynamically, and what a
//! folding-range request is answered.
use vstd::prelude::*;

use crate::documents::DocumentStore;
use crate::folding::{folds_of_text, folds_view, try_compute_folding_ranges, FoldRange};
use crate::text::{str_eq, text_lines};

verus! {

/// The notifications the server tells apart, by method name.
#[derive(PartialEq, Eq, Structural, Clone, Copy, Debug)]
pub enum NotificationKind {
    /// `textDocument/didOpen`
    DidOpen,
    /// `textDocument/didChange`
    DidChange,
    /// `textDocument/didClose`
    DidClose,
    /// `initialized`
    Initialized,
    /// Any other method.
    Other,
}

/// The kind of a notification with method name `method`.
pub open spec fn kind_of_method(method: Seq<char>) -> NotificationKind {
    if method == "textDocument/didOpen"@ {
        NotificationKind::DidOpen
    } else if method == "textDocument/didChange"@ {
        NotificationKind::DidChange
    } else if method == "textDocument/didClose"@ {
        NotificationKind::DidClose
    } else if method == "initialized"@ {
        NotificationKind::Initialized
    } else {
        NotificationKind::Other
    }
}

/// The kind of a notification with method name `method`.
pub fn notification_kind(method: &str) -> (res: NotificationKind)
    ensures
        res == kind_of_method(method@),
{
    if str_eq(method, "textDocument/didOpen") {
        NotificationKind::DidOpen
    } else if str_eq(method, "textDocument/didChange") {
        NotificationKind::DidChange
    } else if str_eq(method, "textDocument/didClose") {
        NotificationKind::DidClose
    } else if str_eq(method, "initialized") {
        NotificationKind::Initialized
    } else {
        NotificationKind::Other
    }
}

/// Whether a request with method name `method` asks for folding ranges.
pub fn is_folding_range_request(method: &str) -> (res: bool)
    ensures
        res == (method@ == "textDocument/foldingRange"@),
{
    str_eq(method, "textDocument/foldingRange")
}

/// A notification, with the parameters the server reads from it.
pub enum Notification {
    /// A document was opened with `text`.
    Opened { uri: String, text: String },
    /// A document changed; `changes` are the full texts sent, in order.
    Changed { uri: String, changes: Vec<String> },
    /// A document was closed.
    Closed { uri: String },
    /// The client finished initializing.
    Initialized,
    /// Any other notification.
    Other,
}

/// The open documents after notification `n`.
pub open spec fn apply_notification(
    docs: Map<Seq<char>, Seq<char>>,
    n: Notification,
) -> Map<Seq<char>, Seq<char>> {
    match n {
        Notification::Opened { uri, text } => docs.insert(uri@, text@),
        Notification::Changed { uri, changes } => if changes@.len() > 0 {
            docs.insert(uri@, changes@.last()@)
        } else {
            docs
        },
        Notification::Closed { uri } => docs.remove(uri@),
        _ => docs,
    }
}

/// Whether notification `n` is one after which the server registers
/// folding support dynamically: `initialized` or `textDocument/didOpen`.
pub open spec fn triggers_registration(n: Notification) -> bool {
    n is Opened || n is Initialized
}

/// Whether the folding-range registration has been sent, and the id of
/// the next request the server sends.
pub struct Registration {
    registered: bool,
    next_request_id: i32,
}

impl Registration {
    #[verifier::type_invariant]
    spec fn inv(self) -> bool {
        if self.registered {
            self.next_request_id == 2
        } else {
            self.next_request_id == 1
        }
    }

    /// Whether the registration request has been sent.
    pub closed spec fn is_registered(self) -> bool {
        self.registered
    }

    /// The id of the next request the server sends.
    pub closed spec fn next_id(self) -> int {
        self.next_request_id as int
    }

    /// No registration sent yet; the first request will have id 1.
    pub fn new() -> (res: Self)
        ensures
            !res.is_registered(),
            res.next_id() == 1,
    {
        Registration { registered: false, next_request_id: 1 }
    }

    /// Decides, after notification `n`, whether to send the registration
    /// request: only once, on the first `initialized` or
    /// `textDocument/didOpen`. Gives the id of the request to send.
    pub fn after(&mut self, n: &Notification) -> (res: Option<i32>)
        ensures
            res == (if !old(self).is_registered() && triggers_registration(*n) {
                Some(old(self).next_id() as i32)
            } else {
                None::<i32>
            }),
            final(self).is_registered() == (old(self).is_registered() || triggers_registration(
                *n,
            )),
            final(self).next_id() == old(self).next_id() + (if res is Some {
                1int
            } else {
                0int
            }),
            !old(self).is_registered() ==> old(self).next_id() == 1,
    {
        proof {
            use_type_invariant(&*self);
        }
        let triggers = match n {
            Notification::Opened { .. } => true,
            Notification::Initialized => true,
            _ => false,
        };
        if !self.registered && triggers {
            let id = self.next_request_id;
            *self = Registration { registered: true, next_request_id: id + 1 };
            Some(id)
        } else {
            None
        }
    }
}

/// The server's state between messages.
pub struct ServerState {
    pub documents: DocumentStore,
    pub registration: Registration,
}

impl ServerState {
    /// No documents open, no registration sent.
    pub fn new() -> (res: Self)
        ensures
            res.documents@ == Map::<Seq<char>, Seq<char>>::empty(),
            !res.registration.is_registered(),
            res.registration.next_id() == 1,
    {
        ServerState { documents: DocumentStore::new(), registration: Registration::new() }
    }

    /// Applies notification `n` to the open documents, and gives the id of
    /// the dynamic registration request to send now, if one is due.
    pub fn on_notification(&mut self, n: Notification) -> (res: Option<i32>)
        ensures
            final(self).documents@ == apply_notification(old(self).documents@, n),
            res == (if !old(self).registration.is_registered() && triggers_registration(n) {
                Some(1i32)
            } else {
                None::<i32>
            }),
            final(self).registration.is_registered() == (old(self).registration.is_registered()
                || triggers_registration(n)),
            final(self).registration.next_id() == old(self).registration.next_id() + (if res is Some {
                1int
            } else {
                0int
            }),
    {
        let reg = self.registration.after(&n);
        match n {
            Notification::Opened { uri, text } => {
                self.documents.insert(uri, text);
            },
            Notification::Changed { uri, changes } => {
                let mut changes = changes;
                if let Some(last) = changes.pop() {
                    self.documents.insert(uri, last);
                }
            },
            Notification::Closed { uri } => {
                self.documents.remove(uri.as_str());
            },
            _ => {},
        }
        reg
    }

    /// The folding ranges of the document at `uri`: none when it is not
    /// open, or when it has more lines than a `u32` line number can address.
    pub fn folding_ranges(&self, uri: &str) -> (res: Vec<FoldRange>)
        ensures
            self.documents@.contains_key(uri@) && text_lines(self.documents@[uri@]).len()
                <= u32::MAX ==> folds_view(res@) == folds_of_text(self.documents@[uri@]),
            !self.documents@.contains_key(uri@) ==> res@.len() == 0,
            self.documents@.contains_key(uri@) && text_lines(self.documents@[uri@]).len()
                > u32::MAX ==> res@.len() == 0,
    {
        match self.documents.get(uri) {
            Some(text) => match try_compute_folding_ranges(text.as_str()) {
                Some(v) => v,
                None => Vec::new(),
            },
            None => Vec::new(),
        }
    }
}


/// The number of registration requests sent while the notifications `ns`
/// arrive in order, starting from `registered`.
pub open spec fn registrations_sent(ns: Seq<Notification>, registered: bool) -> nat
    decreases ns.len(),
{
    if ns.len() == 0 {
        0
    } else {
        let sent: nat = if !registered && triggers_registration(ns[0]) {
            1
        } else {
            0
        };
        sent + registrations_sent(ns.drop_first(), registered || triggers_registration(ns[0]))
    }
}

/// Whatever notifications arrive, the server registers folding support
/// dynamically at most once, and never again once it has.
pub proof fn law_registration_at_most_once(ns: Seq<Notification>, registered: bool)
    ensures
        registrations_sent(ns, registered) <= 1,
        registered ==> registrations_sent(ns, registered) == 0,
    decreases ns.len(),
{
    if ns.len() > 0 {
        law_registration_at_most_once(ns.drop_first(), registered || triggers_registration(ns[0]));
    }
}

/// A document reads back as the text it was last opened or changed to.
pub proof fn law_read_after_write(
    docs: Map<Seq<char>, Seq<char>>,
    uri: String,
    text: String,
    changes: Vec<String>,
)
    ensures
        apply_notification(docs, Notification::Opened { uri, text })[uri@] == text@,
        changes@.len() > 0 ==> apply_notification(
            docs,
            Notification::Changed { uri, changes },
        )[uri@] == changes@.last()@,
        changes@.len() == 0 ==> apply_notification(docs, Notification::Changed { uri, changes })
            == docs,
        !apply_notification(docs, Notification::Closed { uri }).contains_key(uri@),
{
}

/// A notification about one document leaves every other document as it was.
pub proof fn law_other_documents_unchanged(
    docs: Map<Seq<char>, Seq<char>>,
    n: Notification,
    other: Seq<char>,
)
    requires
        match n {
            Notification::Opened { uri, .. } => uri@ != other,
            Notification::Changed { uri, .. } => uri@ != other,
            Notification::Closed { uri } => uri@ != other,
            _ => true,
        },
    ensures
        apply_notification(docs, n).contains_key(other) == docs.contains_key(other),
        docs.contains_key(other) ==> apply_notification(docs, n)[other] == docs[other],
{
}

} // verus!
