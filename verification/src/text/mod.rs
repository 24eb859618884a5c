//! Text as sequences of characters: conversion, searching, splitting.

pub mod bytes;
pub mod chars;
pub mod number;
pub mod pick;
pub mod search;
pub mod split;
