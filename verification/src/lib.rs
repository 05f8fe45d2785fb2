//! An evaluator of the Zap language: expressions, programs, modules, classes, documents and web
//! requests. What a program asks of the machine goes through the host calls of its context.

pub mod access;
pub mod annotations;
pub mod answers;
pub mod assets;
pub mod ast;
pub mod blocks;
pub mod builtins;
pub mod calls;
pub mod classes;
pub mod collections;
pub mod documents;
pub mod evaluator;
pub mod evolution;
pub mod flows;
pub mod grammar;
pub mod host;
pub mod json;
pub mod laws;
pub mod layout;
pub mod ledger;
pub mod lexer;
pub mod library;
pub mod lines;
pub mod liveness;
pub mod modules;
pub mod network;
pub mod numbers;
pub mod operators;
pub mod order;
pub mod outside;
pub mod paths;
pub mod program;
pub mod progress;
pub mod records;
pub mod registry;
pub mod roundtrip;
pub mod runtime;
pub mod semantics;
pub mod shapes;
pub mod surroundings;
pub mod syntax;
pub mod system;
pub mod table;
pub mod text;
pub mod tidiness;
pub mod typing;
pub mod url;
pub mod value;
pub mod web;
pub mod webcheck;
pub mod wording;
pub mod world;
