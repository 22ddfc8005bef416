use codegraph::graph::CodeGraph;
use codegraph::impact::analyze_impact;
use codegraph::languages::get_adapter;
use codegraph::query::{
    query_dependants, query_dependencies, query_module, query_symbol, QueryOptions,
};
use codegraph::scanner::{scan_sources, SourceFile};
use codegraph::slicer::{generate_overview, generate_slices, get_module_slice_with_deps};
use codegraph::traverser::Language;

const LOGIN_TS: &str = r#"import { findUser } from '../db/users';
import bcrypt from 'bcrypt';

export interface LoginOptions {
  username: string;
  password: string;
}

export async function login(options: LoginOptions): Promise<boolean> {
  const user = await findUser(options.username);
  if (!user) return false;
  const ok = await bcrypt.compare(options.password, user.hash);
  return ok;
}
"#;

const ROUTES_TS: &str = r#"import { login } from '../auth/login';

export async function handleLogin(req: any, res: any) {
  const ok = await login(req.body);
  res.json({ ok });
}
"#;

const HELPERS_PY: &str = r#"import os
import sys
from os.path import join

__all__ = ["process_data", "DataProcessor"]


def process_data(data):
    return [item for item in data if item]


def _internal_helper(path):
    return join(os.getcwd(), path)


class DataProcessor:
    def __init__(self, name):
        self.name = name

    def run(self, data):
        return process_data(data)
"#;

const HANDLER_GO: &str = r#"package services

import (
	"encoding/json"
	"fmt"
	"net/http"
)

type Handler struct {
	name string
}

type Response struct {
	Status  int
	Message string
}

func NewHandler(name string) *Handler {
	return &Handler{name: name}
}

func (h *Handler) ServeHTTP(w http.ResponseWriter, r *http.Request) {
	json.NewEncoder(w).Encode(Response{Status: 200, Message: h.name})
}

func internalHelper(msg string) {
	fmt.Println(msg)
}
"#;

const ENGINE_RS: &str = r#"use std::io::{self, Read, Write};
use std::collections::HashMap;
use crate::config::Settings;

pub struct Engine {
    settings: Settings,
    cache: HashMap<String, Vec<u8>>,
}

pub enum Status {
    Running,
    Stopped,
    Error(String),
}

pub trait Processable {
    fn process(&self, input: &[u8]) -> io::Result<Vec<u8>>;
}

impl Engine {
    pub fn new(settings: Settings) -> Self {
        Engine {
            settings,
            cache: HashMap::new(),
        }
    }

    pub fn run(&mut self, data: &[u8]) -> io::Result<Vec<u8>> {
        Ok(data.to_vec())
    }

    fn internal_method(&self) -> bool {
        true
    }
}

impl Processable for Engine {
    fn process(&self, input: &[u8]) -> io::Result<Vec<u8>> {
        self.run(input)
    }
}

fn helper_function() -> bool {
    false
}

pub fn public_function(input: &str) -> String {
    input.to_uppercase()
}
"#;

const USER_JAVA: &str = r#"package models;

import java.util.List;
import java.util.Optional;

public class User {
    private String name;
    private String email;

    public User(String name, String email) {
        this.name = name;
        this.email = email;
    }

    public String getName() {
        return name;
    }

    public String getEmail() {
        return email;
    }

    public void setEmail(String email) {
        this.email = email;
    }

    boolean validate() {
        return name != null && email != null;
    }
}

interface UserService {
    Optional<User> findById(String id);

    List<User> findAll();
}

enum UserRole {
    ADMIN,
    MEMBER
}
"#;

const ENGINE_CPP: &str = r#"#include <iostream>
#include <vector>
#include "utils.h"

namespace engine {

struct Config {
    int threads;
    bool verbose;
};

class Engine {
public:
    Engine(const Config& config);
    void start();
    void stop();

private:
    Config config_;
    std::vector<int> jobs_;
};

Engine::Engine(const Config& config) : config_(config) {}

void Engine::start() {
    std::cout << "start" << std::endl;
}

void Engine::stop() {
    jobs_.clear();
}

static void internalHelper() {
    std::cout << "helper" << std::endl;
}

void initialize() {
    internalHelper();
}

}
"#;

/// The sources of the sample project, by path.
fn sample_sources() -> Vec<(&'static str, &'static str)> {
    vec![
        ("src/api/routes.ts", ROUTES_TS),
        ("src/auth/login.ts", LOGIN_TS),
        ("src/core/engine.rs", ENGINE_RS),
        ("src/models/User.java", USER_JAVA),
        ("src/native/engine.cpp", ENGINE_CPP),
        ("src/services/handler.go", HANDLER_GO),
        ("src/utils/helpers.py", HELPERS_PY),
    ]
}

fn fixture() -> CodeGraph {
    let sources: Vec<SourceFile> = sample_sources()
        .into_iter()
        .map(|(path, text)| SourceFile {
            rel_path: path.to_string(),
            content: text.as_bytes().to_vec(),
        })
        .collect();
    scan_sources("sample-project", "/sample-project", &sources)
}

fn parse_fixture(
    lang: Language,
    rel_path: &str,
) -> (
    Vec<codegraph::languages::FunctionInfo>,
    Vec<codegraph::languages::ImportInfo>,
    Vec<codegraph::languages::ExportInfo>,
    Vec<codegraph::languages::ClassInfo>,
) {
    let text = sample_sources()
        .into_iter()
        .find(|(path, _)| *path == rel_path)
        .unwrap_or_else(|| panic!("no sample file {}", rel_path))
        .1;
    let source = text.as_bytes();
    let adapter = get_adapter(lang);
    let tree = adapter.parse(source).unwrap();
    (
        adapter.extract_functions(&tree, source),
        adapter.extract_imports(&tree, source),
        adapter.extract_exports(&tree, source),
        adapter.extract_classes(&tree, source),
    )
}

#[test]
fn sample_project_in_numbers() {
    let g = fixture();
    let counts: Vec<(String, usize, usize)> = g
        .files
        .key_list()
        .into_iter()
        .map(|p| {
            let f = g.files.get(&p).unwrap();
            (p, f.functions.len(), f.classes.len())
        })
        .collect();
    assert_eq!(
        counts,
        vec![
            ("src/api/routes.ts".to_string(), 1, 0),
            ("src/auth/login.ts".to_string(), 1, 0),
            ("src/core/engine.rs".to_string(), 6, 1),
            ("src/models/User.java".to_string(), 7, 1),
            ("src/native/engine.cpp".to_string(), 5, 2),
            ("src/services/handler.go".to_string(), 3, 2),
            ("src/utils/helpers.py".to_string(), 2, 1),
        ]
    );
}

#[test]
fn test_ts_login_functions() {
    let (fns, _, _, _) = parse_fixture(Language::TypeScript, "src/auth/login.ts");
    let names: Vec<&str> = fns.iter().map(|f| f.name.as_str()).collect();
    assert!(names.contains(&"login"), "expected 'login', got {:?}", names);
}

#[test]
fn test_ts_login_imports() {
    let (_, imports, _, _) = parse_fixture(Language::TypeScript, "src/auth/login.ts");
    assert!(
        imports.iter().any(|i| i.source.contains("db/users")),
        "expected import from '../db/users', got {:?}",
        imports.iter().map(|i| &i.source).collect::<Vec<_>>()
    );
    assert!(
        imports.iter().any(|i| i.source == "bcrypt"),
        "expected import 'bcrypt', got {:?}",
        imports.iter().map(|i| &i.source).collect::<Vec<_>>()
    );
}

#[test]
fn test_ts_login_exports() {
    let (_, _, exports, _) = parse_fixture(Language::TypeScript, "src/auth/login.ts");
    let names: Vec<&str> = exports.iter().map(|e| e.name.as_str()).collect();
    assert!(names.contains(&"login"), "expected export 'login', got {:?}", names);
    assert!(names.contains(&"LoginOptions"), "expected export 'LoginOptions', got {:?}", names);
}

#[test]
fn test_ts_login_classes() {
    let (_, _, _, classes) = parse_fixture(Language::TypeScript, "src/auth/login.ts");
    assert!(
        classes.iter().any(|c| c.name == "LoginOptions" && c.kind == "interface"),
        "expected interface 'LoginOptions', got {:?}",
        classes.iter().map(|c| (&c.name, &c.kind)).collect::<Vec<_>>()
    );
}

#[test]
fn test_ts_routes_functions() {
    let (fns, _, _, _) = parse_fixture(Language::TypeScript, "src/api/routes.ts");
    let names: Vec<&str> = fns.iter().map(|f| f.name.as_str()).collect();
    assert!(names.contains(&"handleLogin"), "expected 'handleLogin', got {:?}", names);
}

#[test]
fn test_ts_routes_imports() {
    let (_, imports, _, _) = parse_fixture(Language::TypeScript, "src/api/routes.ts");
    assert!(
        imports.iter().any(|i| i.source.contains("auth/login") && i.names.contains(&"login".to_string())),
        "expected import {{login}} from '../auth/login', got {:?}",
        imports
    );
}

#[test]
fn test_ts_routes_exports() {
    let (_, _, exports, _) = parse_fixture(Language::TypeScript, "src/api/routes.ts");
    let names: Vec<&str> = exports.iter().map(|e| e.name.as_str()).collect();
    assert!(names.contains(&"handleLogin"), "expected export 'handleLogin', got {:?}", names);
}

#[test]
fn test_py_helpers_functions() {
    let (fns, _, _, _) = parse_fixture(Language::Python, "src/utils/helpers.py");
    let names: Vec<&str> = fns.iter().map(|f| f.name.as_str()).collect();
    assert!(names.contains(&"process_data"), "expected 'process_data', got {:?}", names);
    assert!(names.contains(&"_internal_helper"), "expected '_internal_helper', got {:?}", names);
}

#[test]
fn test_py_helpers_imports() {
    let (_, imports, _, _) = parse_fixture(Language::Python, "src/utils/helpers.py");
    let sources: Vec<&str> = imports.iter().map(|i| i.source.as_str()).collect();
    assert!(sources.contains(&"os"), "expected import 'os', got {:?}", sources);
    assert!(sources.contains(&"sys"), "expected import 'sys', got {:?}", sources);
    assert!(
        imports.iter().any(|i| i.source == "os.path" && i.names.contains(&"join".to_string())),
        "expected 'from os.path import join', got {:?}", imports
    );
}

#[test]
fn test_py_helpers_exports_dunder_all() {
    let (_, _, exports, _) = parse_fixture(Language::Python, "src/utils/helpers.py");
    // __all__ = ["process_data", "DataProcessor"]
    let names: Vec<&str> = exports.iter().map(|e| e.name.as_str()).collect();
    assert_eq!(names.len(), 2, "__all__ should yield exactly 2 exports, got {:?}", names);
    assert!(names.contains(&"process_data"), "expected 'process_data' in __all__, got {:?}", names);
    assert!(names.contains(&"DataProcessor"), "expected 'DataProcessor' in __all__, got {:?}", names);
}

#[test]
fn test_py_helpers_classes() {
    let (_, _, _, classes) = parse_fixture(Language::Python, "src/utils/helpers.py");
    assert!(
        classes.iter().any(|c| c.name == "DataProcessor"),
        "expected class 'DataProcessor', got {:?}",
        classes.iter().map(|c| &c.name).collect::<Vec<_>>()
    );
    let dp = classes.iter().find(|c| c.name == "DataProcessor").unwrap();
    assert!(dp.methods.contains(&"__init__".to_string()), "expected method '__init__'");
    assert!(dp.methods.contains(&"run".to_string()), "expected method 'run'");
}

#[test]
fn test_go_handler_functions() {
    let (fns, _, _, _) = parse_fixture(Language::Go, "src/services/handler.go");
    let names: Vec<&str> = fns.iter().map(|f| f.name.as_str()).collect();
    assert!(names.contains(&"NewHandler"), "expected 'NewHandler', got {:?}", names);
    assert!(names.contains(&"ServeHTTP"), "expected 'ServeHTTP', got {:?}", names);
    assert!(names.contains(&"internalHelper"), "expected 'internalHelper', got {:?}", names);
}

#[test]
fn test_go_handler_exports() {
    let (_, _, exports, _) = parse_fixture(Language::Go, "src/services/handler.go");
    let names: Vec<&str> = exports.iter().map(|e| e.name.as_str()).collect();
    assert!(names.contains(&"NewHandler"), "expected exported 'NewHandler', got {:?}", names);
    assert!(names.contains(&"ServeHTTP"), "expected exported 'ServeHTTP', got {:?}", names);
    assert!(!names.contains(&"internalHelper"), "'internalHelper' should NOT be exported, got {:?}", names);
}

#[test]
fn test_go_handler_imports() {
    let (_, imports, _, _) = parse_fixture(Language::Go, "src/services/handler.go");
    let sources: Vec<&str> = imports.iter().map(|i| i.source.as_str()).collect();
    assert!(sources.contains(&"fmt"), "expected import 'fmt', got {:?}", sources);
    assert!(sources.contains(&"net/http"), "expected import 'net/http', got {:?}", sources);
    assert!(sources.contains(&"encoding/json"), "expected import 'encoding/json', got {:?}", sources);
}

#[test]
fn test_go_handler_structs() {
    let (_, _, _, classes) = parse_fixture(Language::Go, "src/services/handler.go");
    let names: Vec<&str> = classes.iter().map(|c| c.name.as_str()).collect();
    assert!(names.contains(&"Handler"), "expected struct 'Handler', got {:?}", names);
    assert!(names.contains(&"Response"), "expected struct 'Response', got {:?}", names);
}

#[test]
fn test_java_user_functions() {
    let (fns, _, _, _) = parse_fixture(Language::Java, "src/models/User.java");
    let names: Vec<&str> = fns.iter().map(|f| f.name.as_str()).collect();
    assert!(names.contains(&"User.getName"), "expected 'User.getName', got {:?}", names);
    assert!(names.contains(&"User.setEmail"), "expected 'User.setEmail', got {:?}", names);
    assert!(names.contains(&"User.validate"), "expected 'User.validate', got {:?}", names);
}

#[test]
fn test_java_user_imports() {
    let (_, imports, _, _) = parse_fixture(Language::Java, "src/models/User.java");
    assert!(
        imports.iter().any(|i| i.source == "java.util" && i.names.contains(&"List".to_string())),
        "expected 'import java.util.List', got {:?}", imports
    );
    assert!(
        imports.iter().any(|i| i.source == "java.util" && i.names.contains(&"Optional".to_string())),
        "expected 'import java.util.Optional', got {:?}", imports
    );
}

#[test]
fn test_java_user_exports() {
    let (_, _, exports, _) = parse_fixture(Language::Java, "src/models/User.java");
    let names: Vec<&str> = exports.iter().map(|e| e.name.as_str()).collect();
    assert!(names.contains(&"User"), "expected public class 'User', got {:?}", names);
    assert!(!names.contains(&"UserService"), "'UserService' has no public modifier, got {:?}", names);
}

#[test]
fn test_java_user_classes() {
    let (_, _, _, classes) = parse_fixture(Language::Java, "src/models/User.java");
    let names: Vec<&str> = classes.iter().map(|c| c.name.as_str()).collect();
    assert!(names.contains(&"User"), "expected class 'User', got {:?}", names);
    assert!(names.contains(&"UserService"), "expected interface 'UserService', got {:?}", names);
    assert!(names.contains(&"UserRole"), "expected enum 'UserRole', got {:?}", names);
    let user = classes.iter().find(|c| c.name == "User").unwrap();
    assert!(user.methods.contains(&"getName".to_string()), "expected method 'getName'");
}

#[test]
fn test_cpp_engine_functions() {
    let (fns, _, _, _) = parse_fixture(Language::Cpp, "src/native/engine.cpp");
    let names: Vec<&str> = fns.iter().map(|f| f.name.as_str()).collect();
    assert!(names.contains(&"Engine::Engine"), "expected 'Engine::Engine', got {:?}", names);
    assert!(names.contains(&"Engine::start"), "expected 'Engine::start', got {:?}", names);
    assert!(names.contains(&"Engine::stop"), "expected 'Engine::stop', got {:?}", names);
    assert!(names.contains(&"initialize"), "expected 'initialize', got {:?}", names);
}

#[test]
fn test_cpp_engine_exports() {
    let (_, _, exports, _) = parse_fixture(Language::Cpp, "src/native/engine.cpp");
    let names: Vec<&str> = exports.iter().map(|e| e.name.as_str()).collect();
    assert!(!names.contains(&"internalHelper"), "'internalHelper' is static, should NOT be exported, got {:?}", names);
    assert!(names.contains(&"initialize"), "expected export 'initialize', got {:?}", names);
}

#[test]
fn test_cpp_engine_includes() {
    let (_, imports, _, _) = parse_fixture(Language::Cpp, "src/native/engine.cpp");
    let sources: Vec<&str> = imports.iter().map(|i| i.source.as_str()).collect();
    assert!(sources.contains(&"iostream"), "expected #include <iostream>, got {:?}", sources);
    assert!(sources.contains(&"vector"), "expected #include <vector>, got {:?}", sources);
    assert!(sources.contains(&"utils.h"), "expected #include \"utils.h\", got {:?}", sources);
}

#[test]
fn test_cpp_engine_classes() {
    let (_, _, _, classes) = parse_fixture(Language::Cpp, "src/native/engine.cpp");
    let names: Vec<&str> = classes.iter().map(|c| c.name.as_str()).collect();
    assert!(names.contains(&"Engine"), "expected class 'Engine', got {:?}", names);
    assert!(names.contains(&"Config"), "expected struct 'Config', got {:?}", names);
}

#[test]
fn test_cpp_namespace_not_in_exports() {
    let (_, _, exports, _) = parse_fixture(Language::Cpp, "src/native/engine.cpp");
    let names: Vec<&str> = exports.iter().map(|e| e.name.as_str()).collect();
    assert!(names.contains(&"Engine"), "expected 'Engine' export, got {:?}", names);
    assert!(names.contains(&"Config"), "expected 'Config' export, got {:?}", names);
    assert!(!names.contains(&"engine"), "namespace 'engine' should NOT be in exports, got {:?}", names);
}

#[test]
fn test_scan_valid_graph_version() {
    let g = fixture();
    assert_eq!(g.version, "1.0");
}

#[test]
fn test_scan_total_files() {
    let g = fixture();
    assert_eq!(g.summary.total_files, 7, "expected 7 source files");
}

#[test]
fn test_scan_languages_include_typescript() {
    let g = fixture();
    assert!(
        g.summary.languages.contains_key("typescript"),
        "expected 'typescript' in languages"
    );
}

#[test]
fn test_scan_language_counts() {
    let g = fixture();
    assert_eq!(g.summary.languages.get("typescript").copied().unwrap_or(0), 2);
    assert_eq!(g.summary.languages.get("rust").copied().unwrap_or(0), 1);
    assert_eq!(g.summary.languages.get("java").copied().unwrap_or(0), 1);
    assert_eq!(g.summary.languages.get("cpp").copied().unwrap_or(0), 1);
    assert_eq!(g.summary.languages.get("go").copied().unwrap_or(0), 1);
    assert_eq!(g.summary.languages.get("python").copied().unwrap_or(0), 1);
}

#[test]
fn test_scan_modules_detected() {
    let g = fixture();
    let mods = &g.summary.modules;
    for expected in &["api", "auth", "core", "models", "native", "services", "utils"] {
        assert!(mods.contains(&expected.to_string()), "missing module '{}'", expected);
    }
}

#[test]
fn test_scan_module_count() {
    let g = fixture();
    assert_eq!(g.summary.modules.len(), 7);
}

#[test]
fn test_scan_login_ts_exists() {
    let g = fixture();
    assert!(
        g.files.contains_key("src/auth/login.ts"),
        "expected 'src/auth/login.ts' in files"
    );
}

#[test]
fn test_scan_login_ts_has_functions() {
    let g = fixture();
    let f = g.files.get("src/auth/login.ts").unwrap();
    assert!(!f.functions.is_empty(), "login.ts should have functions");
    assert!(f.functions.iter().any(|fn_| fn_.name == "login"));
}

#[test]
fn test_scan_login_ts_has_imports() {
    let g = fixture();
    let f = g.files.get("src/auth/login.ts").unwrap();
    assert!(!f.imports.is_empty(), "login.ts should have imports");
}

#[test]
fn test_scan_login_ts_exports_login() {
    let g = fixture();
    let f = g.files.get("src/auth/login.ts").unwrap();
    assert!(f.exports.contains(&"login".to_string()), "login.ts should export 'login'");
}

#[test]
fn test_scan_api_module_exists() {
    let g = fixture();
    assert!(g.modules.contains_key("api"), "module 'api' should exist");
}

#[test]
fn test_scan_api_depends_on_auth() {
    let g = fixture();
    let api = g.modules.get("api").unwrap();
    assert!(
        api.depends_on.contains(&"auth".to_string()),
        "api should depend on auth, got {:?}",
        api.depends_on
    );
}

#[test]
fn test_scan_auth_depended_by_api() {
    let g = fixture();
    let auth = g.modules.get("auth").unwrap();
    assert!(
        auth.depended_by.contains(&"api".to_string()),
        "auth should be depended by api, got {:?}",
        auth.depended_by
    );
}

#[test]
fn test_cross_validate_total_functions() {
    let g = fixture();
    assert_eq!(
        g.summary.total_functions, 25,
        "totalFunctions should be 25"
    );
}

#[test]
fn test_cross_validate_total_classes() {
    let g = fixture();
    assert_eq!(
        g.summary.total_classes, 7,
        "totalClasses should be 7"
    );
}

#[test]
fn test_cross_validate_routes_ts() {
    let g = fixture();
    let f = g.files.get("src/api/routes.ts").unwrap();
    assert_eq!(f.language, "typescript");
    assert_eq!(f.module, "api");
    assert_eq!(f.lines, 7);
    assert_eq!(f.functions.len(), 1);
    assert_eq!(f.functions[0].name, "handleLogin");
    assert_eq!(f.functions[0].start_line, 3);
    assert_eq!(f.functions[0].end_line, 6);
    assert!(f.exports.contains(&"handleLogin".to_string()));
}

#[test]
fn test_cross_validate_login_ts() {
    let g = fixture();
    let f = g.files.get("src/auth/login.ts").unwrap();
    assert_eq!(f.language, "typescript");
    assert_eq!(f.module, "auth");
    assert_eq!(f.lines, 15);
    assert_eq!(f.functions.len(), 1);
    assert_eq!(f.functions[0].name, "login");
    assert_eq!(f.functions[0].start_line, 9);
    assert_eq!(f.functions[0].end_line, 14);
}

#[test]
fn test_cross_validate_handler_go_functions() {
    let g = fixture();
    let f = g.files.get("src/services/handler.go").unwrap();
    assert_eq!(f.functions.len(), 3);
    let names: Vec<&str> = f.functions.iter().map(|fn_| fn_.name.as_str()).collect();
    assert!(names.contains(&"NewHandler"));
    assert!(names.contains(&"ServeHTTP"));
    assert!(names.contains(&"internalHelper"));
}

#[test]
fn test_cross_validate_helpers_py_exports() {
    let g = fixture();
    let f = g.files.get("src/utils/helpers.py").unwrap();
    // __all__ = ["process_data", "DataProcessor"]
    assert_eq!(f.exports.len(), 2);
    assert!(f.exports.contains(&"process_data".to_string()));
    assert!(f.exports.contains(&"DataProcessor".to_string()));
}

#[test]
fn test_cross_validate_user_java_types() {
    let g = fixture();
    let f = g.files.get("src/models/User.java").unwrap();
    assert_eq!(f.types.len(), 3);
    let type_names: Vec<&str> = f.types.iter().map(|t| t.name.as_str()).collect();
    assert!(type_names.contains(&"User"));
    assert!(type_names.contains(&"UserService"));
    assert!(type_names.contains(&"UserRole"));
}

#[test]
fn test_query_symbol_login_found() {
    let g = fixture();
    let opts = QueryOptions { type_filter: None };
    let results = query_symbol(&g, "login", &opts);
    assert!(!results.is_empty(), "should find results for 'login'");
}

#[test]
fn test_query_symbol_login_function_kind() {
    let g = fixture();
    let opts = QueryOptions { type_filter: None };
    let results = query_symbol(&g, "login", &opts);
    let login_fn = results.iter().find(|r| r.kind == "function" && r.name == "login");
    assert!(login_fn.is_some(), "should find function named 'login'");
}

#[test]
fn test_query_symbol_login_module() {
    let g = fixture();
    let opts = QueryOptions { type_filter: None };
    let results = query_symbol(&g, "login", &opts);
    let login_fn = results.iter().find(|r| r.kind == "function" && r.name == "login").unwrap();
    assert_eq!(login_fn.module, "auth");
}

#[test]
fn test_query_symbol_login_has_lines() {
    let g = fixture();
    let opts = QueryOptions { type_filter: None };
    let results = query_symbol(&g, "login", &opts);
    let login_fn = results.iter().find(|r| r.kind == "function" && r.name == "login").unwrap();
    assert!(login_fn.lines.start > 0, "start line should be defined");
    assert!(login_fn.lines.end > 0, "end line should be defined");
}

#[test]
fn test_query_symbol_filter_by_function_type() {
    let g = fixture();
    let func_opts = QueryOptions { type_filter: Some("function".to_string()) };
    let results = query_symbol(&g, "login", &func_opts);
    let login_fn = results.iter().find(|r| r.name == "login" && r.kind == "function");
    assert!(login_fn.is_some(), "should find login as function with type=function filter");
}

#[test]
fn test_query_symbol_filter_by_type_excludes_function() {
    let g = fixture();
    let type_opts = QueryOptions { type_filter: Some("type".to_string()) };
    let results = query_symbol(&g, "login", &type_opts);
    let login_fn = results.iter().find(|r| r.name == "login" && r.kind == "function");
    assert!(login_fn.is_none(), "login function should not appear with type=type filter");
}

#[test]
fn test_query_symbol_unknown_returns_empty() {
    let g = fixture();
    let opts = QueryOptions { type_filter: None };
    let results = query_symbol(&g, "nonExistentSymbol12345", &opts);
    assert!(results.is_empty(), "unknown symbol should return empty");
}

#[test]
fn test_query_module_auth_exists() {
    let g = fixture();
    let result = query_module(&g, "auth");
    assert!(result.is_some(), "module 'auth' should exist");
}

#[test]
fn test_query_module_auth_name() {
    let g = fixture();
    let result = query_module(&g, "auth").unwrap();
    assert_eq!(result.name, "auth");
}

#[test]
fn test_query_module_auth_has_files() {
    let g = fixture();
    let result = query_module(&g, "auth").unwrap();
    assert!(!result.files.is_empty(), "auth module should have files");
}

#[test]
fn test_query_module_auth_has_depends_on() {
    let g = fixture();
    let result = query_module(&g, "auth").unwrap();
    // dependsOn and dependedBy are arrays (may be empty)
    let _ = result.depends_on;
    let _ = result.depended_by;
}

#[test]
fn test_query_module_unknown_returns_none() {
    let g = fixture();
    let result = query_module(&g, "nonExistentModule");
    assert!(result.is_none(), "unknown module should return None");
}

#[test]
fn test_query_dependants_auth_contains_api() {
    let g = fixture();
    let dependants = query_dependants(&g, "auth");
    assert!(dependants.contains(&"api".to_string()), "auth dependants should contain 'api'");
}

#[test]
fn test_query_dependants_unknown_returns_empty() {
    let g = fixture();
    let dependants = query_dependants(&g, "nonExistentModule");
    assert!(dependants.is_empty(), "unknown module dependants should be empty");
}

#[test]
fn test_query_dependencies_api_contains_auth() {
    let g = fixture();
    let deps = query_dependencies(&g, "api");
    assert!(deps.contains(&"auth".to_string()), "api dependencies should contain 'auth'");
}

#[test]
fn test_query_dependencies_unknown_returns_empty() {
    let g = fixture();
    let deps = query_dependencies(&g, "nonExistentModule");
    assert!(deps.is_empty(), "unknown module dependencies should be empty");
}

#[test]
fn test_impact_auth_target_type_module() {
    let g = fixture();
    let result = analyze_impact(&g, "auth", 3);
    assert_eq!(result.target_type.as_str(), "module");
}

#[test]
fn test_impact_auth_target_module() {
    let g = fixture();
    let result = analyze_impact(&g, "auth", 3);
    assert_eq!(result.target_module, "auth");
}

#[test]
fn test_impact_auth_direct_dependants_contains_api() {
    let g = fixture();
    let result = analyze_impact(&g, "auth", 3);
    assert!(
        result.direct_dependants.contains(&"api".to_string()),
        "auth direct dependants should contain 'api', got {:?}",
        result.direct_dependants
    );
}

#[test]
fn test_impact_auth_impacted_modules_contains_auth_and_api() {
    let g = fixture();
    let result = analyze_impact(&g, "auth", 3);
    assert!(result.impacted_modules.contains(&"auth".to_string()));
    assert!(result.impacted_modules.contains(&"api".to_string()));
}

#[test]
fn test_impact_file_target_type() {
    let g = fixture();
    let login_file = g.files.key_list().into_iter().find(|f| f.contains("login.ts"))
        .expect("login.ts should exist in graph").clone();
    let result = analyze_impact(&g, &login_file, 3);
    assert_eq!(result.target_type.as_str(), "file");
}

#[test]
fn test_impact_file_target_module() {
    let g = fixture();
    let login_file = g.files.key_list().into_iter().find(|f| f.contains("login.ts"))
        .expect("login.ts should exist in graph").clone();
    let result = analyze_impact(&g, &login_file, 3);
    assert_eq!(result.target_module, "auth");
}

#[test]
fn test_impact_file_impacted_files_has_auth_and_api() {
    let g = fixture();
    let login_file = g.files.key_list().into_iter().find(|f| f.contains("login.ts"))
        .expect("login.ts should exist in graph").clone();
    let result = analyze_impact(&g, &login_file, 3);
    assert!(!result.impacted_files.is_empty(), "impacted files should not be empty");
    let has_auth = result.impacted_files.iter().any(|f| f.contains("auth"));
    let has_api = result.impacted_files.iter().any(|f| f.contains("api"));
    assert!(has_auth, "impacted files should include auth files");
    assert!(has_api, "impacted files should include api files");
}

#[test]
fn test_impact_api_no_dependants() {
    let g = fixture();
    let result = analyze_impact(&g, "api", 3);
    assert_eq!(result.target_type.as_str(), "module");
    assert!(result.direct_dependants.is_empty(), "api has no dependants");
    assert!(result.transitive_dependants.is_empty());
    assert_eq!(result.impacted_modules, vec!["api"]);
}

#[test]
fn test_impact_depth_zero_no_transitive() {
    let g = fixture();
    let result = analyze_impact(&g, "auth", 0);
    assert!(result.transitive_dependants.is_empty(), "depth=0 should have no transitive dependants");
    assert_eq!(result.impacted_modules, vec!["auth"]);
}

#[test]
fn test_impact_unknown_target_graceful() {
    let g = fixture();
    let result = analyze_impact(&g, "nonExistentModule", 3);
    assert_eq!(result.target_module, "nonExistentModule");
    assert!(result.direct_dependants.is_empty());
    assert!(result.transitive_dependants.is_empty());
}

#[test]
fn test_overview_has_project() {
    let g = fixture();
    let overview = generate_overview(&g);
    assert!(!overview.project.name.is_empty(), "overview should have project name");
}

#[test]
fn test_overview_has_scanned_at() {
    let g = fixture();
    let overview = generate_overview(&g);
    assert!(!overview.scanned_at.is_empty(), "overview should have scannedAt");
}

#[test]
fn test_overview_has_summary() {
    let g = fixture();
    let overview = generate_overview(&g);
    assert!(overview.summary.total_files > 0, "overview summary should have files");
}

#[test]
fn test_overview_has_modules() {
    let g = fixture();
    let overview = generate_overview(&g);
    assert!(!overview.modules.is_empty(), "overview should have modules");
}

#[test]
fn test_overview_auth_module_has_file_count() {
    let g = fixture();
    let overview = generate_overview(&g);
    let auth_mod = overview.modules.iter().find(|m| m.name == "auth");
    assert!(auth_mod.is_some(), "auth module should be in overview");
    assert!(auth_mod.unwrap().file_count > 0, "auth module should have files");
}

#[test]
fn test_overview_auth_module_has_exports() {
    let g = fixture();
    let overview = generate_overview(&g);
    let auth_mod = overview.modules.iter().find(|m| m.name == "auth").unwrap();
    // exports is a Vec (may be empty but should exist as field)
    let _ = &auth_mod.exports;
}

#[test]
fn test_overview_auth_module_has_depends_on() {
    let g = fixture();
    let overview = generate_overview(&g);
    let auth_mod = overview.modules.iter().find(|m| m.name == "auth").unwrap();
    let _ = &auth_mod.depends_on;
    let _ = &auth_mod.depended_by;
}

#[test]
fn test_overview_has_entry_points() {
    let g = fixture();
    let overview = generate_overview(&g);
    // entryPoints is a Vec (may be empty)
    let _ = &overview.entry_points;
}

#[test]
fn test_slices_has_auth_module() {
    let g = fixture();
    let slices = generate_slices(&g);
    assert!(slices.contains_key("auth"), "slices should have 'auth' module");
}

#[test]
fn test_slices_has_api_module() {
    let g = fixture();
    let slices = generate_slices(&g);
    assert!(slices.contains_key("api"), "slices should have 'api' module");
}

#[test]
fn test_slices_auth_has_files() {
    let g = fixture();
    let slices = generate_slices(&g);
    let auth_slice = slices.get("auth").unwrap();
    assert!(!auth_slice.files.is_empty(), "auth slice should have files");
}

#[test]
fn test_slices_auth_files_have_functions() {
    let g = fixture();
    let slices = generate_slices(&g);
    let auth_slice = slices.get("auth").unwrap();
    // files[0] should have functions field
    let _ = &auth_slice.files[0].functions;
}

#[test]
fn test_slices_auth_files_have_imports() {
    let g = fixture();
    let slices = generate_slices(&g);
    let auth_slice = slices.get("auth").unwrap();
    let _ = &auth_slice.files[0].imports;
}

#[test]
fn test_slices_api_depends_on_auth() {
    let g = fixture();
    let slices = generate_slices(&g);
    assert!(
        slices.get("api").unwrap().depends_on.contains(&"auth".to_string()),
        "api slice should depend on auth"
    );
}

#[test]
fn test_slices_auth_has_stats() {
    let g = fixture();
    let slices = generate_slices(&g);
    let auth_slice = slices.get("auth").unwrap();
    assert!(auth_slice.stats.total_files > 0, "auth slice stats should have files");
}

#[test]
fn test_slice_with_deps_api_module() {
    let g = fixture();
    let result = get_module_slice_with_deps(&g, "api").expect("api module should exist");
    assert_eq!(result.slice.module, "api");
}

#[test]
fn test_slice_with_deps_api_has_files() {
    let g = fixture();
    let result = get_module_slice_with_deps(&g, "api").unwrap();
    assert!(!result.slice.files.is_empty(), "api slice should have files");
}

#[test]
fn test_slice_with_deps_api_has_dependencies() {
    let g = fixture();
    let result = get_module_slice_with_deps(&g, "api").unwrap();
    assert!(!result.dependencies.is_empty(), "api should have dependencies");
}

#[test]
fn test_slice_with_deps_api_auth_dep_exists() {
    let g = fixture();
    let result = get_module_slice_with_deps(&g, "api").unwrap();
    let auth_dep = result.dependencies.iter().find(|d| d.name == "auth");
    assert!(auth_dep.is_some(), "api dependencies should include 'auth'");
}

#[test]
fn test_slice_with_deps_auth_dep_has_exports() {
    let g = fixture();
    let result = get_module_slice_with_deps(&g, "api").unwrap();
    let auth_dep = result.dependencies.iter().find(|d| d.name == "auth").unwrap();
    let _ = &auth_dep.exports;
}

#[test]
fn test_rust_engine_functions() {
    let (fns, _, _, _) = parse_fixture(Language::Rust, "src/core/engine.rs");
    let names: Vec<&str> = fns.iter().map(|f| f.name.as_str()).collect();
    assert!(names.contains(&"Engine::new"), "expected 'Engine::new', got {:?}", names);
    assert!(names.contains(&"Engine::run"), "expected 'Engine::run', got {:?}", names);
    assert!(names.contains(&"helper_function"), "expected 'helper_function', got {:?}", names);
    assert!(names.contains(&"public_function"), "expected 'public_function', got {:?}", names);
}

#[test]
fn test_rust_engine_exports() {
    let (_, _, exports, _) = parse_fixture(Language::Rust, "src/core/engine.rs");
    let names: Vec<&str> = exports.iter().map(|e| e.name.as_str()).collect();
    assert!(names.contains(&"Engine"), "expected pub 'Engine', got {:?}", names);
    assert!(names.contains(&"Status"), "expected pub 'Status', got {:?}", names);
    assert!(names.contains(&"Processable"), "expected pub 'Processable', got {:?}", names);
    assert!(names.contains(&"public_function"), "expected pub 'public_function', got {:?}", names);
    assert!(
        !names.contains(&"helper_function"),
        "'helper_function' should NOT be exported, got {:?}",
        names
    );
}

#[test]
fn test_rust_engine_imports() {
    let (_, imports, _, _) = parse_fixture(Language::Rust, "src/core/engine.rs");
    assert!(
        imports.iter().any(|i| i.source.contains("std::io")),
        "expected import from 'std::io', got {:?}",
        imports.iter().map(|i| &i.source).collect::<Vec<_>>()
    );
}

#[test]
fn test_rust_engine_classes() {
    let (_, _, _, classes) = parse_fixture(Language::Rust, "src/core/engine.rs");
    let names: Vec<&str> = classes.iter().map(|c| c.name.as_str()).collect();
    assert!(names.contains(&"Engine"), "expected struct 'Engine', got {:?}", names);
    assert!(names.contains(&"Status"), "expected enum 'Status', got {:?}", names);
    assert!(names.contains(&"Processable"), "expected trait 'Processable', got {:?}", names);
}

#[test]
fn engine_facts_in_full() {
    let (fns, imports, exports, classes) = parse_fixture(Language::Rust, "src/core/engine.rs");
    let names: Vec<(&str, bool)> = fns.iter().map(|f| (f.name.as_str(), f.is_exported)).collect();
    assert_eq!(
        names,
        vec![
            ("Engine::new", true),
            ("Engine::run", true),
            ("Engine::internal_method", false),
            ("Engine::process", false),
            ("helper_function", false),
            ("public_function", true),
        ]
    );
    assert_eq!(fns[1].params, vec!["&mut self", "data"]);
    assert_eq!((fns[0].start_line, fns[0].end_line), (21, 26));
    let sources: Vec<&str> = imports.iter().map(|i| i.source.as_str()).collect();
    assert_eq!(sources, vec!["std::io", "std::collections", "crate::config"]);
    assert_eq!(imports[0].names, vec!["self", "Read", "Write"]);
    assert_eq!(imports[1].names, vec!["HashMap"]);
    let exported: Vec<(&str, &str)> =
        exports.iter().map(|e| (e.name.as_str(), e.kind.as_str())).collect();
    assert_eq!(
        exported,
        vec![
            ("Engine", "struct"),
            ("Status", "enum"),
            ("Processable", "trait"),
            ("public_function", "function"),
        ]
    );
    let kinds: Vec<(&str, &str)> = classes.iter().map(|c| (c.name.as_str(), c.kind.as_str())).collect();
    assert_eq!(kinds, vec![("Engine", "struct"), ("Status", "enum"), ("Processable", "trait")]);
}

fn engine_project() -> CodeGraph {
    let sources = vec![SourceFile {
        rel_path: "src/core/engine.rs".to_string(),
        content: ENGINE_RS.as_bytes().to_vec(),
    }];
    scan_sources("sample-project", "/sample-project", &sources)
}

#[test]
fn test_cross_validate_engine_rs_functions() {
    let g = engine_project();
    let f = g.files.get("src/core/engine.rs").unwrap();
    assert_eq!(f.language, "rust");
    assert_eq!(f.functions.len(), 6);
    let names: Vec<&str> = f.functions.iter().map(|fn_| fn_.name.as_str()).collect();
    assert!(names.contains(&"Engine::new"));
    assert!(names.contains(&"Engine::run"));
    assert!(names.contains(&"Engine::internal_method"));
    assert!(names.contains(&"Engine::process"));
    assert!(names.contains(&"helper_function"));
    assert!(names.contains(&"public_function"));
}

#[test]
fn test_cross_validate_engine_rs_exports() {
    let g = engine_project();
    let f = g.files.get("src/core/engine.rs").unwrap();
    assert!(f.exports.contains(&"Engine".to_string()));
    assert!(f.exports.contains(&"Status".to_string()));
    assert!(f.exports.contains(&"Processable".to_string()));
    assert!(f.exports.contains(&"public_function".to_string()));
}

#[test]
fn engine_record_in_full() {
    let g = engine_project();
    let f = g.files.get("src/core/engine.rs").unwrap();
    assert_eq!(f.hash, "sha256:5ab3dc4e622ea75f");
    assert_eq!(f.module, "core");
    assert_eq!(f.lines, 50);
    assert!(!f.is_entry_point);
    assert_eq!(f.functions[1].signature, "Engine::run(&mut self, data)");
    let classes: Vec<&str> = f.classes.iter().map(|c| c.name.as_str()).collect();
    assert_eq!(classes, vec!["Engine"]);
    let types: Vec<(&str, &str)> = f.types.iter().map(|t| (t.name.as_str(), t.kind.as_str())).collect();
    assert_eq!(types, vec![("Engine", "struct"), ("Status", "enum"), ("Processable", "trait")]);
    assert!(f.imports.iter().all(|i| i.is_external));
    assert_eq!(g.summary.total_functions, 6);
    assert_eq!(g.summary.total_classes, 1);
    assert_eq!(g.summary.modules, vec!["core"]);
    assert!(g.modules.get("core").unwrap().depends_on.is_empty());
}
