//! A verified primer.
//!
//! The heart of the crate is a model of shared ownership: values kept alive
//! by counted handles ([`shared`]), a cell that lends its contents under a
//! rule checked at run time ([`cell`]), and a graph of nodes with parents
//! and children built from the two ([`graph`]). Every operation comes with a
//! contract that says exactly what it does to the counts, the borrows and
//! the links, and the consequences that matter are proved as lemmas: a
//! count is the number of live handles, a dead value stays dead, a release
//! takes what was owned alone and spares what is held elsewhere.
//!
//! Around it stand smaller pieces, each with its contract: numbers and
//! shapes ([`functions`], [`shapes`], [`lists`], [`largest`], [`generics`]),
//! texts ([`words`], [`spaces`], [`branches`], [`pig_latin`], [`minigrep`],
//! [`summary`]), and small machines ([`iterators`], [`closures`],
//! [`tracker`], [`guessing`], [`directory`], [`restaurant`], [`coins`],
//! [`adder`], [`boxes`]).

pub mod adder;
pub mod boxes;
pub mod branches;
pub mod cell;
pub mod closures;
pub mod coins;
pub mod directory;
pub mod functions;
pub mod generics;
pub mod graph;
pub mod guessing;
pub mod iterators;
pub mod largest;
pub mod lists;
pub mod minigrep;
pub mod pig_latin;
pub mod restaurant;
pub mod shapes;
pub mod shared;
pub mod spaces;
pub mod summary;
pub mod tracker;
pub mod words;
