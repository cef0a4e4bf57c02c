//! What can end a client, and how it is told to the user.

use crate::text;
use crate::text::append_decimal;
use vstd::prelude::*;
use vstd::string::*;

verus! {

/// An error while reading a message, with the words of the system where there are any.
#[derive(Debug, PartialEq, Eq)]
pub enum FramingError {
    UnexpectedEof,
    Io(String),
    Malformed(String),
}

/// Errors that can occur during client operation.
#[derive(Debug, PartialEq, Eq)]
pub enum ClientError {
    /// Could not connect to the server's client socket.
    ConnectionFailed(String),
    /// The server rejected the handshake.
    HandshakeRejected { version: u32, error: String },
    /// The server shut down.
    ServerShutdown { reason: Option<String> },
    /// Lost the connection to the server.
    ConnectionLost(String),
    /// A message could not be read.
    Protocol(String),
}

/// What a message to the user mentions: where the server's socket is, how to come back to a
/// remote server where the client belongs to one, and how to come back to the local session.
pub struct ErrorContext {
    pub socket_path: String,
    pub reattach_command: Option<String>,
    pub local_attach_command: String,
}

pub open spec fn reattach_hint(command: Seq<char>) -> Seq<char> {
    "\nRun `"@ + command + "` to reattach"@
}

/// The message of an error.
pub open spec fn spec_message(error: ClientError, context: ErrorContext) -> Seq<char> {
    match error {
        ClientError::ConnectionFailed(err) => "failed to connect to server: "@ + err@
            + "\nIs herdr server running? Start it with `herdr server`."@ + "\nSocket path: "@
            + context.socket_path@,
        ClientError::HandshakeRejected { version, error } => {
            "server rejected handshake (version "@ + text::decimal_text(version as nat) + "): "@
                + error@
        },
        ClientError::ServerShutdown { reason } => match reason {
            Some(reason) => if reason@ == "detached"@ {
                match context.reattach_command {
                    Some(command) => "detached from remote server"@ + reattach_hint(command@),
                    None => "detached from server"@ + reattach_hint(context.local_attach_command@),
                }
            } else {
                "server shut down"@ + ": "@ + reason@
            },
            None => "server shut down"@,
        },
        ClientError::ConnectionLost(err) => match context.reattach_command {
            Some(command) => "lost connection to remote Herdr: "@ + err@
                + "\nIf the remote server survived the SSH or network drop, its panes may still be running."@
                + reattach_hint(command@),
            None => "lost connection to server: "@ + err@,
        },
        ClientError::Protocol(err) => "protocol error: "@ + err@,
    }
}

/// Whether an error is only the answer to a request to detach.
pub open spec fn is_detach(error: ClientError) -> bool {
    match error {
        ClientError::ServerShutdown { reason: Some(reason) } => reason@ == "detached"@,
        _ => false,
    }
}

fn push_hint(message: &mut String, command: &str)
    ensures
        final(message)@ == old(message)@ + reattach_hint(command@),
{
    message.append("\nRun `");
    message.append(command);
    message.append("` to reattach");
    assert(message@ =~= old(message)@ + reattach_hint(command@));
}

impl ClientError {
    /// The message for the user.
    pub fn message(&self, context: &ErrorContext) -> (message: String)
        ensures
            message@ == spec_message(*self, *context),
    {
        let mut message = String::new();
        match self {
            ClientError::ConnectionFailed(err) => {
                message.append("failed to connect to server: ");
                message.append(err.as_str());
                message.append("\nIs herdr server running? Start it with `herdr server`.");
                message.append("\nSocket path: ");
                message.append(context.socket_path.as_str());
            },
            ClientError::HandshakeRejected { version, error } => {
                message.append("server rejected handshake (version ");
                append_decimal(&mut message, *version as u64);
                message.append("): ");
                message.append(error.as_str());
            },
            ClientError::ServerShutdown { reason } => match reason {
                Some(reason) => {
                    if text::same_text(reason.as_str(), "detached") {
                        match &context.reattach_command {
                            Some(command) => {
                                message.append("detached from remote server");
                                push_hint(&mut message, command.as_str());
                            },
                            None => {
                                message.append("detached from server");
                                push_hint(&mut message, context.local_attach_command.as_str());
                            },
                        }
                    } else {
                        message.append("server shut down");
                        message.append(": ");
                        message.append(reason.as_str());
                    }
                },
                None => {
                    message.append("server shut down");
                },
            },
            ClientError::ConnectionLost(err) => match &context.reattach_command {
                Some(command) => {
                    message.append("lost connection to remote Herdr: ");
                    message.append(err.as_str());
                    message.append(
                        "\nIf the remote server survived the SSH or network drop, its panes may still be running.",
                    );
                    push_hint(&mut message, command.as_str());
                },
                None => {
                    message.append("lost connection to server: ");
                    message.append(err.as_str());
                },
            },
            ClientError::Protocol(err) => {
                message.append("protocol error: ");
                message.append(err.as_str());
            },
        }
        assert(message@ =~= spec_message(*self, *context));
        message
    }

    /// Whether the client may exit as if nothing had gone wrong.
    pub fn is_clean_exit(&self) -> (clean: bool)
        ensures
            clean == is_detach(*self),
    {
        match self {
            ClientError::ServerShutdown { reason: Some(reason) } => text::same_text(
                reason.as_str(),
                "detached",
            ),
            _ => false,
        }
    }

    /// The error that a failed read of a message becomes: the end of the stream and a failure of
    /// the system are a lost connection, anything else is the message's fault.
    pub fn from_framing(error: FramingError) -> (client_error: Self)
        ensures
            match error {
                FramingError::UnexpectedEof => client_error is ConnectionLost
                    && client_error->ConnectionLost_0@ == "server closed connection"@,
                FramingError::Io(err) => client_error == ClientError::ConnectionLost(err),
                FramingError::Malformed(err) => client_error == ClientError::Protocol(err),
            },
    {
        match error {
            FramingError::UnexpectedEof => ClientError::ConnectionLost(
                "server closed connection".to_owned(),
            ),
            FramingError::Io(err) => ClientError::ConnectionLost(err),
            FramingError::Malformed(err) => ClientError::Protocol(err),
        }
    }
}

/// A text holds another.
pub open spec fn mentions(message: Seq<char>, part: Seq<char>) -> bool {
    exists|i: int| #[trigger] text::occurs_at(message, part, i)
}

proof fn lemma_mentions(before: Seq<char>, part: Seq<char>, behind: Seq<char>)
    ensures
        mentions(before + part + behind, part),
{
    let whole = before + part + behind;
    assert(whole.subrange(before.len() as int, (before.len() + part.len()) as int) =~= part);
    assert(text::occurs_at(whole, part, before.len() as int));
}

/// The user reads what happened in the words in which it was told, and where there is something to
/// do, what to do: where the server's socket is when it cannot be reached, and how to come back
/// after detaching or losing the connection, to the remote server where there is one.
pub proof fn law_messages_say_what_happened(error: ClientError, context: ErrorContext)
    ensures
        ({
            let message = spec_message(error, context);
            match error {
                ClientError::ConnectionFailed(err) => mentions(message, err@) && mentions(
                    message,
                    context.socket_path@,
                ),
                ClientError::HandshakeRejected { version, error } => mentions(message, error@)
                    && mentions(message, text::decimal_text(version as nat)),
                ClientError::ServerShutdown { reason: None } => true,
                ClientError::ServerShutdown { reason: Some(reason) } => if is_detach(error) {
                    match context.reattach_command {
                        Some(command) => mentions(message, command@) && mentions(
                            message,
                            "remote"@,
                        ),
                        None => mentions(message, context.local_attach_command@),
                    }
                } else {
                    mentions(message, reason@)
                },
                ClientError::ConnectionLost(err) => mentions(message, err@) && (
                context.reattach_command is Some ==> mentions(
                    message,
                    context.reattach_command->0@,
                )),
                ClientError::Protocol(err) => mentions(message, err@),
            }
        }),
        is_detach(error) <==> (error matches ClientError::ServerShutdown { reason: Some(reason) }
            && reason@ == "detached"@),
{
    let message = spec_message(error, context);
    let none = Seq::<char>::empty();
    match error {
        ClientError::ConnectionFailed(err) => {
            let a = "failed to connect to server: "@;
            let b = "\nIs herdr server running? Start it with `herdr server`."@
                + "\nSocket path: "@;
            assert(message =~= a + err@ + (b + context.socket_path@));
            lemma_mentions(a, err@, b + context.socket_path@);
            assert(message =~= (a + err@ + b) + context.socket_path@ + none);
            lemma_mentions(a + err@ + b, context.socket_path@, none);
        },
        ClientError::HandshakeRejected { version, error } => {
            let a = "server rejected handshake (version "@;
            let n = text::decimal_text(version as nat);
            assert(message =~= a + n + ("): "@ + error@));
            lemma_mentions(a, n, "): "@ + error@);
            assert(message =~= (a + n + "): "@) + error@ + none);
            lemma_mentions(a + n + "): "@, error@, none);
        },
        ClientError::ServerShutdown { reason } => {
            if let Some(reason) = reason {
                if reason@ == "detached"@ {
                    match context.reattach_command {
                        Some(command) => {
                            let a = "detached from remote server"@;
                            reveal_strlit("detached from remote server");
                            reveal_strlit("remote");
                            assert(message =~= (a + "\nRun `"@) + command@ + "` to reattach"@);
                            lemma_mentions(a + "\nRun `"@, command@, "` to reattach"@);
                            assert(a =~= a.take(14) + "remote"@ + a.skip(20));
                            assert(message =~= a.take(14) + "remote"@ + (a.skip(20)
                                + reattach_hint(command@)));
                            lemma_mentions(
                                a.take(14),
                                "remote"@,
                                a.skip(20) + reattach_hint(command@),
                            );
                        },
                        None => {
                            let a = "detached from server"@;
                            let command = context.local_attach_command@;
                            assert(message =~= (a + "\nRun `"@) + command + "` to reattach"@);
                            lemma_mentions(a + "\nRun `"@, command, "` to reattach"@);
                        },
                    }
                } else {
                    assert(message =~= ("server shut down"@ + ": "@) + reason@ + none);
                    lemma_mentions("server shut down"@ + ": "@, reason@, none);
                }
            }
        },
        ClientError::ConnectionLost(err) => match context.reattach_command {
            Some(command) => {
                let a = "lost connection to remote Herdr: "@;
                let b =
                    "\nIf the remote server survived the SSH or network drop, its panes may still be running."@;
                assert(message =~= a + err@ + (b + reattach_hint(command@)));
                lemma_mentions(a, err@, b + reattach_hint(command@));
                assert(message =~= (a + err@ + b + "\nRun `"@) + command@ + "` to reattach"@);
                lemma_mentions(a + err@ + b + "\nRun `"@, command@, "` to reattach"@);
            },
            None => {
                assert(message =~= "lost connection to server: "@ + err@ + none);
                lemma_mentions("lost connection to server: "@, err@, none);
            },
        },
        ClientError::Protocol(err) => {
            assert(message =~= "protocol error: "@ + err@ + none);
            lemma_mentions("protocol error: "@, err@, none);
        },
    }
}

} // verus!
