use vstd::prelude::*;

pub mod text;
pub mod escape;
pub mod error;
pub mod result;
pub mod env;
pub mod cmd;
pub mod pipeline;
pub mod time;
pub mod exec;
pub mod paths;
pub mod glob;
pub mod template;
pub mod tail;
pub mod evaluation;

pub use escape::{escape_arg, _append_shell_args, EscapeForShell, IntoArgs};
pub use error::{CmdError, Result};
pub use result::{Captured, CmdResult, Redirected, RawOutput};
pub use cmd::{Append, Cmd, CmdOps, Null, RedirectFrom, Stderr, Stdout, TimeoutConfig};
pub use glob::{glob, glob_esc};
pub use tail::{TailOptions, TailStream};
