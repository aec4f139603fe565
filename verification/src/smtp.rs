//! SMTP submission settings and the TLS-mode rule: port 465 speaks TLS from
//! the first byte, every other port upgrades with a required STARTTLS.

use vstd::prelude::*;

verus! {

/// An attachment to send; the payload travels base64-encoded.
#[derive(Clone, Debug)]
pub struct OutgoingAttachment {
    pub filename: String,
    pub mime_type: String,
    pub data: String,
}

/// A message to send.
#[derive(Clone, Debug)]
pub struct OutgoingEmail {
    pub to: Vec<String>,
    pub cc: Vec<String>,
    pub bcc: Vec<String>,
    pub subject: String,
    pub body_text: String,
    pub body_html: Option<String>,
    pub reply_to_message_id: Option<String>,
    pub attachments: Option<Vec<OutgoingAttachment>>,
}

/// An SMTP submission endpoint with its credential.
pub struct SmtpClient {
    pub host: String,
    pub port: u16,
    pub username: String,
    pub password: String,
    pub display_name: String,
}

impl SmtpClient {
    /// Binds an endpoint and credential for later sends.
    pub fn new(host: String, port: u16, username: String, password: String, display_name: String)
        -> (r: SmtpClient)
        ensures
            r.host == host,
            r.port == port,
            r.username == username,
            r.password == password,
            r.display_name == display_name,
    {
        SmtpClient { host, port, username, password, display_name }
    }

    /// Whether this endpoint speaks TLS from the first byte; any other port
    /// requires the opportunistic STARTTLS upgrade.
    pub fn uses_implicit_tls(&self) -> (r: bool)
        ensures
            r == (self.port == 465),
    {
        self.port == 465
    }

    /// The `name <user>` sender string handed to the message builder.
    pub fn from_address(&self) -> (r: String)
        ensures
            r@ == self.display_name@ + " <"@ + self.username@ + ">"@,
    {
        let mut out = String::new();
        out.append(self.display_name.as_str());
        out.append(" <");
        out.append(self.username.as_str());
        out.append(">");
        out
    }
}

/// The sent-folder names probed after a successful send, in order.
pub fn sent_folder_candidates() -> (r: Vec<&'static str>)
    ensures
        r@.len() == 6,
        r@[0]@ == "Sent"@,
        r@[1]@ == "Gesendet"@,
        r@[2]@ == "INBOX.Sent"@,
        r@[3]@ == "INBOX.Gesendet"@,
        r@[4]@ == "Sent Items"@,
        r@[5]@ == "Sent Messages"@,
{
    let mut v: Vec<&'static str> = Vec::new();
    v.push("Sent");
    v.push("Gesendet");
    v.push("INBOX.Sent");
    v.push("INBOX.Gesendet");
    v.push("Sent Items");
    v.push("Sent Messages");
    v
}

} // verus!
