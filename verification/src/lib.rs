use vstd::prelude::*;

pub mod text;
pub mod clock;
pub mod network;
pub mod oauth;
pub mod weburl;
pub mod rx;
pub mod semantic;
pub mod sanitize;
pub mod observer;
pub mod playbook;
pub mod pilot;
pub mod selector;
pub mod session;
pub mod target;
pub mod assertions;
pub mod netguard;
pub mod helpers;
pub mod params;
pub mod entropy;
pub mod relay;
pub mod decide;
pub mod extract;
pub mod runner;
pub mod tools;
pub mod jq;
pub mod watch;

verus! {

} // verus!
