//! A verified core of a tool that builds online books from Markdown files.

pub mod text;
pub mod maps;
pub mod html_escape;
pub mod book;
pub mod paths;
pub mod json;
pub mod config;
pub mod static_urls;
pub mod ids;
pub mod regex_ext;
pub mod take_lines;
pub mod frontmatter;
pub mod rust_code;
pub mod static_files;
pub mod clean_urls;
pub mod links;
pub mod command;
pub mod renderers;
pub mod resource_refs;
pub mod theme;
pub mod path_order;
pub mod search;
pub mod toc;
pub mod dependency_graph;
pub mod preprocessors;
pub mod page_data;
pub mod chapter_page;
pub mod doc_tests;
pub mod wordcount;
pub mod markdown;
pub mod toml_ext;
pub mod redirects;
pub mod html_serialize;
pub mod print_page;
pub mod chapter_html;
pub mod chapter_tree;
pub mod not_found;
pub mod tree_builder;
pub mod fontawesome;
pub mod search_docs;
pub mod md_parse;
