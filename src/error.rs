use vstd::prelude::*;

verus! {

/// Domain errors of the membership store and the lifecycle operations.
#[derive(Debug, Clone, Copy, PartialEq, Eq, Structural)]
pub enum MyError {
    UsernameExists,
    PasswordHashingFailed,
    UserNotFound,
    ChatNotFound,
    UserDoesNotBelongToGroup,
    UserAlreadyInGroup,
}

/// The human-readable text of each error.
pub open spec fn error_text(e: MyError) -> Seq<char> {
    match e {
        MyError::UsernameExists => "Username already exists"@,
        MyError::PasswordHashingFailed => "Password hashing failed"@,
        MyError::UserNotFound => "User not found"@,
        MyError::ChatNotFound => "Chat not found"@,
        MyError::UserDoesNotBelongToGroup => "User doesn't belong to this group"@,
        MyError::UserAlreadyInGroup => "User already in this group"@,
    }
}

impl MyError {
    /// Human-readable text of the error.
    pub fn message(&self) -> (r: String)
        ensures
            r@ == error_text(*self),
    {
        match self {
            MyError::UsernameExists => String::from_str("Username already exists"),
            MyError::PasswordHashingFailed => String::from_str("Password hashing failed"),
            MyError::UserNotFound => String::from_str("User not found"),
            MyError::ChatNotFound => String::from_str("Chat not found"),
            MyError::UserDoesNotBelongToGroup => String::from_str("User doesn't belong to this group"),
            MyError::UserAlreadyInGroup => String::from_str("User already in this group"),
        }
    }
}

} // verus!
