//! A read-through proxy core for a third-party publishing platform:
//! route resolution, character-offset markup handling, embed planning and
//! post assembly, stated and verified as contracts. Fetching, serving and
//! templating are collaborators around this core; every decision between
//! two fetches is made here.

pub mod flow;
pub mod markup;
pub mod post;
pub mod routes;
pub mod strutil;
