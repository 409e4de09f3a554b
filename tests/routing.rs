use canary::{encode_record, Bincode, Failure, Route, SendFormat, Status};

type Handler = fn(u64, u64) -> u64;

fn echo(a: u64, _b: u64) -> u64 {
    a
}

fn add(a: u64, b: u64) -> u64 {
    a + b
}

fn path_record(path: &str) -> Vec<u8> {
    Bincode.serialize(path).unwrap()
}

fn root() -> Route<Handler> {
    let mut root: Route<Handler> = Route::new();
    root.add_service_at("echo", echo).unwrap();
    let mut math: Route<Handler> = Route::new();
    math.add_service_at("add", add).unwrap();
    root.add_route_at("math", math).unwrap();
    root
}

#[test]
fn introduce_found_service() {
    let root = root();
    let r = root.introduce(&path_record("echo"));
    let h = *r.as_ref().unwrap();
    assert_eq!(h(7, 0), 7);
    let status = Status::reply_to(&r);
    assert_eq!(status, Status::Found);
    assert_eq!(encode_record(&[status.to_byte()]), vec![0, 0, 0, 0, 0, 0, 0, 1, 1]);
}

#[test]
fn introduce_missing_is_not_found() {
    let root = root();
    let r = root.introduce(&path_record("missing"));
    assert_eq!(r.err(), Some(Failure::NotFound));
    assert_eq!(Status::reply_to(&r).to_byte(), 2);
}

#[test]
fn introduce_nested_path() {
    let root = root();
    let h = *root.introduce(&path_record("math/add")).unwrap();
    assert_eq!(h(2, 3), 5);
}

#[test]
fn introduce_sub_route_alone_is_not_found() {
    let root = root();
    assert_eq!(root.introduce(&path_record("math")).err(), Some(Failure::NotFound));
    assert_eq!(root.introduce(&path_record("math/sub")).err(), Some(Failure::NotFound));
}

#[test]
fn introduce_handler_ignores_remaining_segments() {
    let root = root();
    let h = *root.introduce(&path_record("echo/more")).unwrap();
    assert_eq!(h(4, 0), 4);
}

#[test]
fn introduce_empty_path_is_invalid() {
    let root = root();
    let r = root.introduce(&path_record(""));
    assert_eq!(r.err(), Some(Failure::InvalidData));
    assert_eq!(Status::reply_to(&r), Status::NotFound);
    assert_eq!(root.introduce(&path_record("/echo")).err(), Some(Failure::InvalidData));
    assert_eq!(root.introduce(&path_record("math//add")).err(), Some(Failure::InvalidData));
    assert_eq!(root.introduce(&path_record("math/add/")).err(), Some(Failure::InvalidData));
}

#[test]
fn introduce_unreadable_path_is_invalid() {
    let root = root();
    assert_eq!(root.introduce(&[1, 2, 3]).err(), Some(Failure::InvalidData));
}

#[test]
fn add_twice_is_in_use() {
    let mut r: Route<Handler> = Route::new();
    assert_eq!(r.add_service_at("x", echo), Ok(()));
    assert_eq!(r.add_service_at("x", add), Err(Failure::InUse));
    let h = *r.resolve_path("x").unwrap();
    assert_eq!(h(1, 2), 1);
    assert_eq!(r.add_route_at("x", Route::new()), Err(Failure::InUse));
}

#[test]
fn remove_then_add_again() {
    let mut r: Route<Handler> = Route::new();
    assert_eq!(r.remove_at("x"), Err(Failure::NotFound));
    r.add_service_at("x", echo).unwrap();
    assert!(r.contains(b"x"));
    assert_eq!(r.remove_at("x"), Ok(()));
    assert!(!r.contains(b"x"));
    assert_eq!(r.remove_at("x"), Err(Failure::NotFound));
    assert_eq!(r.add_service_at("x", add), Ok(()));
    assert_eq!((*r.resolve_path("x").unwrap())(2, 3), 5);
}

#[test]
fn status_bytes() {
    assert_eq!(Status::Found.to_byte(), 1);
    assert_eq!(Status::NotFound.to_byte(), 2);
    assert_eq!(Status::from_byte(1), Ok(Status::Found));
    assert_eq!(Status::from_byte(2), Ok(Status::NotFound));
    assert_eq!(Status::from_byte(0), Err(Failure::InvalidData));
    assert_eq!(Status::from_byte(3), Err(Failure::InvalidData));
}

struct Ping;

impl canary::RegisterEndpoint for Ping {
    const ENDPOINT: &'static str = "ping";
}

struct MathRoutes;

impl canary::RegisterEndpoint for MathRoutes {
    const ENDPOINT: &'static str = "math";
}

impl canary::Register<Handler> for MathRoutes {
    type Meta = bool;

    fn register(top_route: &mut Route<Handler>, meta: bool) -> Result<(), Failure> {
        if !meta {
            return Err(Failure::Other);
        }
        top_route.add_service_at("add", add)
    }
}

#[test]
fn add_and_remove_service_by_endpoint() {
    let mut r: Route<Handler> = Route::new();
    assert_eq!(r.add_service::<Ping>(echo), Ok(()));
    assert_eq!(r.add_service::<Ping>(add), Err(Failure::InUse));
    assert_eq!((*r.introduce(&path_record("ping")).unwrap())(3, 4), 3);
    assert_eq!(r.remove_service::<Ping>(), Ok(()));
    assert_eq!(r.remove_service::<Ping>(), Err(Failure::NotFound));
}

#[test]
fn register_route_links_filled_route() {
    let mut r: Route<Handler> = Route::new();
    assert_eq!(r.register_route::<MathRoutes>(false), Err(Failure::Other));
    assert!(!r.contains(b"math"));
    assert_eq!(r.register_route::<MathRoutes>(true), Ok(()));
    assert_eq!((*r.introduce(&path_record("math/add")).unwrap())(2, 3), 5);
    assert_eq!(r.register_route::<MathRoutes>(true), Err(Failure::InUse));
    assert_eq!(r.register_route_at::<MathRoutes>("calc", true), Ok(()));
    assert_eq!((*r.resolve_path("calc/add").unwrap())(1, 1), 2);
    assert_eq!(r.remove_register::<MathRoutes>(), Ok(()));
    assert_eq!(r.introduce(&path_record("math/add")).err(), Some(Failure::NotFound));
    assert_eq!(r.register::<MathRoutes>(true), Ok(()));
    assert_eq!((*r.resolve_path("add").unwrap())(4, 4), 8);
}

#[test]
fn echo_transcript() {
    let root = root();
    let mut wire = Vec::new();
    let request = path_record("echo");
    wire.extend(encode_record(&request));
    let r = root.introduce(&request);
    wire.extend(encode_record(&[Status::reply_to(&r).to_byte()]));
    let hi = Bincode.serialize("hi").unwrap();
    wire.extend(encode_record(&hi));
    wire.extend(encode_record(&hi));
    let records = canary::decode_records(&wire, canary::DEFAULT_CEILING).unwrap();
    assert_eq!(records, vec![request, vec![1], hi.clone(), hi]);
}

#[test]
fn missing_transcript() {
    let root = root();
    let request = path_record("missing");
    let r = root.introduce(&request);
    let mut wire = encode_record(&request);
    wire.extend(encode_record(&[Status::reply_to(&r).to_byte()]));
    let records = canary::decode_records(&wire, canary::DEFAULT_CEILING).unwrap();
    assert_eq!(records, vec![request, vec![2]]);
    assert_eq!(Status::from_byte(records[1][0]), Ok(Status::NotFound));
}
