//! Verified core of the Anemoia client: the state machines, parsers and
//! decisions behind the Zulip bridge, the packet capture buffer, the
//! ClickGUI, the Lua module registry, the injector and the agent loader.
pub mod text;
pub mod keyed;
pub mod links;
pub mod modules;
pub mod gui;
pub mod zulip;
pub mod capture;
pub mod injector;
pub mod launcher;
pub mod keys;
pub mod netty;
pub mod agent;
pub mod maps;
pub mod game;
pub mod config;
pub mod paths;
