//! Errors of store operations and their protocol replies.
use vstd::prelude::*;

verus! {

/// Why a store operation was refused.
#[derive(Debug, Clone, Copy, PartialEq, Eq, Structural)]
pub enum KvError {
    WrongType,
    NotInteger,
    Overflow,
    NotFound,
    SyntaxError,
    InvalidExpiry,
}

/// The result of a store operation.
pub type KvResult<T> = Result<T, KvError>;

/// The protocol error line for an error.
pub open spec fn error_reply(e: KvError) -> Seq<char> {
    match e {
        KvError::WrongType => "-WRONGTYPE Operation against a key holding the wrong kind of value\r\n"@,
        KvError::NotInteger => "-ERR value is not an integer or out of range\r\n"@,
        KvError::Overflow => "-ERR increment or decrement would overflow\r\n"@,
        KvError::NotFound => "-ERR no such key\r\n"@,
        KvError::SyntaxError => "-ERR syntax error\r\n"@,
        KvError::InvalidExpiry => "-ERR invalid expire time in command\r\n"@,
    }
}

impl KvError {
    /// The RESP error line sent for this error.
    pub fn to_resp(&self) -> (r: String)
        ensures
            r@ == error_reply(*self),
    {
        match self {
            KvError::WrongType =>
                "-WRONGTYPE Operation against a key holding the wrong kind of value\r\n".to_owned(),
            KvError::NotInteger => "-ERR value is not an integer or out of range\r\n".to_owned(),
            KvError::Overflow => "-ERR increment or decrement would overflow\r\n".to_owned(),
            KvError::NotFound => "-ERR no such key\r\n".to_owned(),
            KvError::SyntaxError => "-ERR syntax error\r\n".to_owned(),
            KvError::InvalidExpiry => "-ERR invalid expire time in command\r\n".to_owned(),
        }
    }
}

} // verus!
