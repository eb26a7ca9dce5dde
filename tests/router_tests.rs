use salvo_core_runtime::router::{
    fits_path, is_better, nest, split_path, Route, RouteError, Router, Segment,
};

fn lit(s: &str) -> Segment {
    Segment::Literal(s.to_string())
}

fn param(s: &str) -> Segment {
    Segment::Param(s.to_string())
}

fn wild(s: &str) -> Segment {
    Segment::Wildcard(s.to_string())
}

fn path(p: &[&str]) -> Vec<String> {
    p.iter().map(|s| s.to_string()).collect()
}

fn route(pattern: Vec<Segment>, goal: usize) -> Route {
    Route { method: "GET".to_string(), pattern, hoops: vec![], goal }
}

fn get() -> String {
    "GET".to_string()
}

#[test]
fn literal_beats_param() {
    let mut r = Router::new();
    assert_eq!(r.add(route(vec![lit("todos"), param("id")], 0)), Ok(0));
    assert_eq!(r.add(route(vec![lit("todos"), lit("all")], 1)), Ok(1));
    let m = r.find(&get(), &path(&["todos", "all"])).unwrap();
    assert_eq!(m.route, 1);
    assert_eq!(m.captures, vec![None, None]);
    let m = r.find(&get(), &path(&["todos", "42"])).unwrap();
    assert_eq!(m.route, 0);
    assert_eq!(m.captures, vec![None, Some("42".to_string())]);
}

#[test]
fn find_is_deterministic() {
    let mut r = Router::new();
    r.add(route(vec![param("a")], 0)).unwrap();
    r.add(route(vec![param("b")], 1)).unwrap();
    let first = r.find(&get(), &path(&["x"])).unwrap();
    let second = r.find(&get(), &path(&["x"])).unwrap();
    assert_eq!(first.route, 0);
    assert_eq!(second.route, 0);
    assert_eq!(first.captures, second.captures);
}

#[test]
fn wildcard_empty_and_many() {
    let mut r = Router::new();
    r.add(route(vec![lit("files"), wild("rest")], 0)).unwrap();
    let m = r.find(&get(), &path(&["files"])).unwrap();
    assert_eq!(m.captures, vec![None, Some(String::new())]);
    let m = r.find(&get(), &path(&["files", "a"])).unwrap();
    assert_eq!(m.captures, vec![None, Some("a".to_string())]);
    let m = r.find(&get(), &path(&["files", "a", "b", "c.txt"])).unwrap();
    assert_eq!(m.captures, vec![None, Some("a/b/c.txt".to_string())]);
}

#[test]
fn exact_route_beats_wildcard() {
    let mut r = Router::new();
    r.add(route(vec![lit("files"), wild("rest")], 0)).unwrap();
    r.add(route(vec![lit("files")], 1)).unwrap();
    r.add(route(vec![lit("files"), lit("x")], 2)).unwrap();
    assert_eq!(r.find(&get(), &path(&["files"])).unwrap().route, 1);
    assert_eq!(r.find(&get(), &path(&["files", "x"])).unwrap().route, 2);
    assert_eq!(r.find(&get(), &path(&["files", "y"])).unwrap().route, 0);
}

#[test]
fn no_route_fits() {
    let mut r = Router::new();
    r.add(route(vec![lit("todos")], 0)).unwrap();
    assert!(r.find(&get(), &path(&["other"])).is_none());
    assert!(r.find(&get(), &path(&["todos", "1"])).is_none());
    assert!(Router::new().find(&get(), &path(&[])).is_none());
}

#[test]
fn misplaced_wildcard_refused() {
    let mut r = Router::new();
    assert_eq!(r.add(route(vec![wild("rest"), lit("x")], 0)), Err(RouteError::MisplacedWildcard));
    assert_eq!(r.len(), 0);
}

#[test]
fn route_keeps_hoops_and_goal() {
    let mut r = Router::new();
    r.add(Route { method: get(), pattern: vec![lit("a")], hoops: vec![3, 4], goal: 9 }).unwrap();
    let m = r.find(&get(), &path(&["a"])).unwrap();
    let found = r.route(m.route);
    assert_eq!(found.hoops, vec![3, 4]);
    assert_eq!(found.goal, 9);
}

#[test]
fn specificity_order() {
    assert!(is_better(&vec![lit("a")], &vec![param("a")]));
    assert!(!is_better(&vec![param("a")], &vec![lit("a")]));
    assert!(is_better(&vec![lit("a")], &vec![lit("a"), wild("r")]));
    assert!(!is_better(&vec![lit("a")], &vec![lit("b")]));
    assert!(fits_path(&vec![lit("a"), param("p")], &path(&["a", "b"])));
    assert!(!fits_path(&vec![lit("a"), param("p")], &path(&["b", "b"])));
}

#[test]
fn method_selects_route() {
    let mut r = Router::new();
    r.add(Route { method: "PUT".to_string(), pattern: vec![lit("todos"), param("id")], hoops: vec![], goal: 0 })
        .unwrap();
    r.add(Route { method: "DELETE".to_string(), pattern: vec![lit("todos"), param("id")], hoops: vec![], goal: 1 })
        .unwrap();
    let p = path(&["todos", "1"]);
    assert_eq!(r.find(&"DELETE".to_string(), &p).unwrap().route, 1);
    assert_eq!(r.find(&"PUT".to_string(), &p).unwrap().route, 0);
    assert!(r.find(&get(), &p).is_none());
}

#[test]
fn nested_route_prefixes_pattern_and_hoops() {
    let child = Route { method: get(), pattern: vec![param("id")], hoops: vec![2], goal: 5 };
    let r = nest(&vec![lit("todos")], &vec![1], child);
    assert_eq!(r.hoops, vec![1, 2]);
    assert_eq!(r.goal, 5);
    assert_eq!(r.pattern.len(), 2);
    assert!(fits_path(&r.pattern, &path(&["todos", "3"])));
    assert!(!fits_path(&r.pattern, &path(&["3"])));
}

#[test]
fn split_path_drops_empty_segments() {
    assert_eq!(split_path("/todos/1"), path(&["todos", "1"]));
    assert_eq!(split_path("todos//1/"), path(&["todos", "1"]));
    assert_eq!(split_path("/"), Vec::<String>::new());
    assert_eq!(split_path(""), Vec::<String>::new());
    assert_eq!(split_path("/files/a/b.txt"), path(&["files", "a", "b.txt"]));
}
