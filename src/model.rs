use vstd::prelude::*;

verus! {

/// A registered account. `password` holds the credential hash, never the clear text.
#[derive(Debug)]
pub struct User {
    pub username: String,
    pub name: String,
    pub surname: String,
    pub password: String,
}

/// Registration data for a new account.
#[derive(Debug)]
pub struct CreateUserRequest {
    pub username: String,
    pub name: String,
    pub surname: String,
    pub password: String,
}

/// Credentials presented at login.
#[derive(Debug)]
pub struct LoginRequest {
    pub username: String,
    pub password: String,
}

/// An authenticated principal: the username that the session layer vouched for.
#[derive(Debug)]
pub struct AuthUser(pub String);

/// A chat row joined with its participants as one comma-separated list.
#[derive(Debug)]
pub struct ChatRaw {
    pub id: i64,
    pub name: Option<String>,
    pub is_group: bool,
    pub created_at: u64,
    pub participants: String,
}

/// A chat as shown to one of its members: `participants` lists the other members.
#[derive(Debug)]
pub struct Chat {
    pub id: i64,
    pub name: Option<String>,
    pub is_group: bool,
    pub created_at: u64,
    pub participants: Vec<String>,
}

/// A stored message. `send_at` is the server-assigned time, in seconds.
#[derive(Debug)]
pub struct Message {
    pub id: i64,
    pub chat_id: i64,
    pub msg: String,
    pub from_user: String,
    pub is_auto: bool,
    pub send_at: u64,
}

impl Message {
    /// A field-by-field copy.
    pub fn copied(&self) -> (r: Message)
        ensures
            r == *self,
    {
        Message {
            id: self.id,
            chat_id: self.chat_id,
            msg: self.msg.clone(),
            from_user: self.from_user.clone(),
            is_auto: self.is_auto,
            send_at: self.send_at,
        }
    }
}

/// The usernames to invite into a group.
#[derive(Debug)]
pub struct InviteRequest {
    pub to: Vec<String>,
}

/// A pending invitation as listed for its recipient, with the group's name.
#[derive(Debug)]
pub struct UserRequest {
    pub chat_id: i64,
    pub from: String,
    pub name: String,
}

/// Parameters of a new group.
#[derive(Debug)]
pub struct CreateGroupPayload {
    pub name: Option<String>,
    pub is_group: bool,
    pub participants: Vec<String>,
}

/// The id of a newly created group.
#[derive(Debug, Clone, Copy)]
pub struct GroupChatResponse {
    pub chat_id: i64,
}

/// The other party of a private chat.
#[derive(Debug)]
pub struct CreatePrivateChatPayload {
    pub other_username: String,
}

/// The private chat between two users and whether it existed before the call.
#[derive(Debug, Clone, Copy)]
pub struct PrivateChatResponse {
    pub chat_id: i64,
    pub already_exists: bool,
}

/// The body of a message sent by a client.
#[derive(Debug)]
pub struct SendMessagePayload {
    pub msg: String,
}

/// A plain response that carries only a human-readable outcome.
#[derive(Debug)]
pub struct ApiResponse {
    pub message: String,
}

} // verus!
