pub mod lexer;
pub mod parser;
pub mod laws;

pub use lexer::{Token, TokenType, Tokens};
pub use parser::{Artist, ArtistList, ParseError};
