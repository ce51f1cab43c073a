//! The identity database of a Linux system: the user table, the shadow
//! table and the group table, read into memory, cross-referenced, and
//! changed together.
//!
//! The library works on text. A record is read from a line and written
//! back as one; a database is made of the text of the three tables; an
//! operation that changes the tables takes their text and hands back what
//! they are to hold, and the database as it is to be once they hold it.
//! Locking the files, reading and writing them is left to the caller, whom
//! the modules `userlib::files` and `userlib::files::lock` tell what to do.
pub mod api;
pub mod error;
pub mod group;
pub mod number;
pub mod text;
pub mod user;
pub mod userlib;

pub use error::UserLibError;
pub use group::Group;
pub use user::gecos_fields::Gecos;
pub use user::passwd_fields::Password;
pub use user::shadow_fields::Shadow;
pub use user::User;
pub use userlib::files::Files;
pub use userlib::UserDBLocal;

