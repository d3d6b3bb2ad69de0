use std::sync::{Arc, Mutex};

use kvs::engines::sled_wrapper::{removed, value_of};
use kvs::json::{next_frame, Frame, Json};
use kvs::thread_pool::ThreadPool;
use kvs::{
    check_engine_type, engine_type_of, Command, EngineType, GetResponse, KvsCliOption, KvsEngine,
    KvsError, KvsServer, RemoveResponse, Report, Request, Response, SetResponse, Step,
};

#[derive(Clone)]
struct MemoryEngine {
    store: Arc<Mutex<kvs::kv::KvStore>>,
}

impl MemoryEngine {
    fn new() -> MemoryEngine {
        MemoryEngine { store: Arc::new(Mutex::new(kvs::kv::KvStore::new())) }
    }
}

impl KvsEngine for MemoryEngine {
    fn set(&self, key: String, value: String) -> Result<(), KvsError> {
        self.store.lock().unwrap().set(key, value);
        Ok(())
    }

    fn get(&self, key: String) -> Result<Option<String>, KvsError> {
        Ok(self.store.lock().unwrap().get(key))
    }

    fn remove(&self, key: String) -> Result<(), KvsError> {
        let mut store = self.store.lock().unwrap();
        if store.get(key.clone()).is_none() {
            return Err(KvsError::KeyNotFound);
        }
        store.remove(key);
        Ok(())
    }
}

struct InlinePool;

impl ThreadPool for InlinePool {
    fn new(_: usize) -> Result<Self, KvsError> {
        Ok(InlinePool)
    }

    fn spawn<F>(&self, task: F)
    where
        F: FnOnce() + Send + 'static,
    {
        task()
    }
}

/// The JSON value that the bytes are, if they are one value and nothing else.
fn whole(bytes: &[u8]) -> Result<Json, KvsError> {
    match next_frame(bytes) {
        Frame::Value { json, consumed } => match next_frame(&bytes[consumed..]) {
            Frame::Nothing => Ok(json),
            Frame::Value { .. } => Err(KvsError::SerdeError(serde_json::from_str::<u8>("1 1").unwrap_err())),
            Frame::Partial(e) | Frame::Broken(e) => Err(e),
        },
        Frame::Nothing => Err(KvsError::SerdeError(serde_json::from_str::<u8>("").unwrap_err())),
        Frame::Partial(e) | Frame::Broken(e) => Err(e),
    }
}

fn decode_request(bytes: &[u8]) -> Result<Request, KvsError> {
    Request::from_json(&whole(bytes)?)
}

fn decode_set(bytes: &[u8]) -> Result<SetResponse, KvsError> {
    SetResponse::from_json(&whole(bytes)?)
}

fn decode_get(bytes: &[u8]) -> Result<GetResponse, KvsError> {
    GetResponse::from_json(&whole(bytes)?)
}

fn decode_remove(bytes: &[u8]) -> Result<RemoveResponse, KvsError> {
    RemoveResponse::from_json(&whole(bytes)?)
}

fn put(key: &str, value: &str) -> Request {
    Request::Put { key: key.to_string(), value: value.to_string() }
}

fn get(key: &str) -> Request {
    Request::Get { key: key.to_string() }
}

fn remove(key: &str) -> Request {
    Request::Remove { key: key.to_string() }
}

/// One exchange as the server sees it: the request's bytes in, the answer's
/// text out.
fn exchange(engine: &MemoryEngine, request: &Request) -> String {
    let wire = request.encode().unwrap();
    let decoded = decode_request(wire.as_bytes()).unwrap();
    match KvsServer::<MemoryEngine, InlinePool>::serve(engine, decoded) {
        Response::Get(answer) => answer.encode().unwrap(),
        Response::Put(answer) => answer.encode().unwrap(),
        Response::Remove(answer) => answer.encode().unwrap(),
    }
}

#[test]
fn requests_are_written_as_tagged_objects() {
    assert_eq!(put("k", "v").encode().unwrap(), r#"{"Set":{"key":"k","value":"v"}}"#);
    assert_eq!(get("k").encode().unwrap(), r#"{"Get":{"key":"k"}}"#);
    assert_eq!(remove("k").encode().unwrap(), r#"{"Remove":{"key":"k"}}"#);
    assert_eq!(get("a \"b\"\n").encode().unwrap(), r#"{"Get":{"key":"a \"b\"\n"}}"#);
}

#[test]
fn requests_round_trip() {
    for (key, value) in [("k", "v"), ("", ""), ("{\"Get\":", "}}"), ("schlüssel", "wert ✓"), ("a\tb", "c\nd")] {
        match decode_request(put(key, value).encode().unwrap().as_bytes()).unwrap() {
            Request::Put { key: k, value: v } => assert_eq!((k.as_str(), v.as_str()), (key, value)),
            other => panic!("{:?}", other),
        }
        match decode_request(get(key).encode().unwrap().as_bytes()).unwrap() {
            Request::Get { key: k } => assert_eq!(k, key),
            other => panic!("{:?}", other),
        }
        match decode_request(remove(key).encode().unwrap().as_bytes()).unwrap() {
            Request::Remove { key: k } => assert_eq!(k, key),
            other => panic!("{:?}", other),
        }
    }
}

#[test]
fn what_is_no_request_is_a_codec_error() {
    for text in [
        "",
        "nonsense",
        "null",
        "{}",
        r#"{"Set":{"key":"k"}}"#,
        r#"{"Set":{"value":"v"}}"#,
        r#"{"Get":{"key":1}}"#,
        r#"{"Get":"k"}"#,
        r#"{"Scan":{"key":"k"}}"#,
        r#"{"Get":{"key":"k"},"Remove":{"key":"k"}}"#,
        r#"{"Get":{"key":"k"}} {"Get":{"key":"k"}}"#,
    ] {
        assert!(matches!(decode_request(text.as_bytes()), Err(KvsError::SerdeError(_))), "{}", text);
    }
}

#[test]
fn request_from_json_reads_the_tag_and_the_fields() {
    let body = Json::Object(vec![
        ("key".to_string(), Json::Text("k".to_string())),
        ("value".to_string(), Json::Text("v".to_string())),
    ]);
    let json = Json::Object(vec![("Set".to_string(), body)]);
    assert!(matches!(Request::from_json(&json), Ok(Request::Put { key, value }) if key == "k" && value == "v"));
    assert!(matches!(Request::from_json(&Json::Null), Err(KvsError::SerdeError(_))));
    assert!(matches!(Request::from_json(&Json::Array(Vec::new())), Err(KvsError::SerdeError(_))));
}

#[test]
fn answers_are_written_as_ok_or_err() {
    assert_eq!(SetResponse::Success(()).encode().unwrap(), r#"{"Ok":null}"#);
    assert_eq!(RemoveResponse::Success(()).encode().unwrap(), r#"{"Ok":null}"#);
    assert_eq!(GetResponse::Success(None).encode().unwrap(), r#"{"Ok":null}"#);
    assert_eq!(GetResponse::Success(Some("v".to_string())).encode().unwrap(), r#"{"Ok":"v"}"#);
    assert_eq!(SetResponse::Failure("no".to_string()).encode().unwrap(), r#"{"Err":"no"}"#);
    assert_eq!(GetResponse::Failure("n\"o".to_string()).encode().unwrap(), r#"{"Err":"n\"o"}"#);
    assert_eq!(RemoveResponse::Failure("Key not found".to_string()).encode().unwrap(), r#"{"Err":"Key not found"}"#);
}

#[test]
fn answers_round_trip() {
    assert!(matches!(decode_set(br#"{"Ok":null}"#), Ok(SetResponse::Success(()))));
    assert!(matches!(decode_remove(br#"{"Ok":null}"#), Ok(RemoveResponse::Success(()))));
    assert!(matches!(decode_get(br#"{"Ok":null}"#), Ok(GetResponse::Success(None))));
    assert!(matches!(decode_get(br#"{"Ok":"v"}"#), Ok(GetResponse::Success(Some(v))) if v == "v"));
    assert!(matches!(decode_set(br#"{"Err":"m"}"#), Ok(SetResponse::Failure(m)) if m == "m"));
    assert!(matches!(decode_get(br#"{"Err":"m"}"#), Ok(GetResponse::Failure(m)) if m == "m"));
    assert!(matches!(decode_remove(br#"{"Err":"m"}"#), Ok(RemoveResponse::Failure(m)) if m == "m"));
    for value in ["", "plain", "with \"quotes\" and \\", "zeilen\numbruch", "🦀"] {
        let wire = GetResponse::Success(Some(value.to_string())).encode().unwrap();
        assert!(matches!(decode_get(wire.as_bytes()), Ok(GetResponse::Success(Some(v))) if v == value));
        let wire = SetResponse::Failure(value.to_string()).encode().unwrap();
        assert!(matches!(decode_set(wire.as_bytes()), Ok(SetResponse::Failure(m)) if m == value));
    }
}

#[test]
fn what_is_no_answer_is_a_codec_error() {
    for text in ["", "null", "{}", r#"{"Ok":1}"#, r#"{"Err":null}"#, r#"{"Fine":null}"#, r#"{"Ok":null,"Err":"m"}"#] {
        assert!(matches!(decode_set(text.as_bytes()), Err(KvsError::SerdeError(_))), "{}", text);
        assert!(matches!(decode_remove(text.as_bytes()), Err(KvsError::SerdeError(_))), "{}", text);
        assert!(matches!(decode_get(text.as_bytes()), Err(KvsError::SerdeError(_))), "{}", text);
    }
    assert!(matches!(decode_set(br#"{"Ok":"v"}"#), Err(KvsError::SerdeError(_))));
    assert!(matches!(decode_remove(br#"{"Ok":"v"}"#), Err(KvsError::SerdeError(_))));
}

#[test]
fn an_answer_reports_what_the_engine_returned() {
    assert!(matches!(SetResponse::from_result(Ok(())), SetResponse::Success(())));
    assert!(matches!(RemoveResponse::from_result(Ok(())), RemoveResponse::Success(())));
    assert!(matches!(GetResponse::from_result(Ok(None)), GetResponse::Success(None)));
    assert!(matches!(GetResponse::from_result(Ok(Some("v".to_string()))), GetResponse::Success(Some(v)) if v == "v"));
    assert!(matches!(
        RemoveResponse::from_result(Err(KvsError::KeyNotFound)),
        RemoveResponse::Failure(m) if m == "Key not found"
    ));
    assert!(matches!(
        GetResponse::from_result(Err(KvsError::UnknownCommand)),
        GetResponse::Failure(m) if m == "Unknown command"
    ));
    assert!(matches!(
        SetResponse::from_result(Err(KvsError::LogFileNotFound)),
        SetResponse::Failure(m) if m == "toy bitcask error: Log file not found"
    ));
}

#[test]
fn the_client_turns_a_failure_into_a_server_error() {
    assert!(matches!(SetResponse::Success(()).into_result(), Ok(())));
    assert!(matches!(RemoveResponse::Success(()).into_result(), Ok(())));
    assert!(matches!(GetResponse::Success(None).into_result(), Ok(None)));
    assert!(matches!(GetResponse::Success(Some("v".to_string())).into_result(), Ok(Some(v)) if v == "v"));
    assert!(matches!(
        SetResponse::Failure("m".to_string()).into_result(),
        Err(KvsError::ServerErrorMessage(m)) if m == "m"
    ));
    assert!(matches!(
        GetResponse::Failure("m".to_string()).into_result(),
        Err(KvsError::ServerErrorMessage(m)) if m == "m"
    ));
    assert!(matches!(
        RemoveResponse::Failure("m".to_string()).into_result(),
        Err(KvsError::ServerErrorMessage(m)) if m == "m"
    ));
}

#[test]
fn the_server_answers_each_request_in_kind() {
    let engine = MemoryEngine::new();
    let server = KvsServer::new(engine.clone(), InlinePool::new(4).unwrap());
    assert!(matches!(
        KvsServer::<MemoryEngine, InlinePool>::serve(server.engine(), get("foo")),
        Response::Get(GetResponse::Success(None))
    ));
    assert!(matches!(
        KvsServer::<MemoryEngine, InlinePool>::serve(server.engine(), put("foo", "bar")),
        Response::Put(SetResponse::Success(()))
    ));
    assert!(matches!(
        KvsServer::<MemoryEngine, InlinePool>::serve(server.engine(), get("foo")),
        Response::Get(GetResponse::Success(Some(v))) if v == "bar"
    ));
    assert!(matches!(
        KvsServer::<MemoryEngine, InlinePool>::serve(server.engine(), remove("foo")),
        Response::Remove(RemoveResponse::Success(()))
    ));
    assert!(matches!(
        KvsServer::<MemoryEngine, InlinePool>::serve(server.engine(), remove("foo")),
        Response::Remove(RemoveResponse::Failure(m)) if m == "Key not found"
    ));
    assert_eq!(engine.get("foo".to_string()).unwrap(), None);
    let ran = Arc::new(Mutex::new(false));
    let flag = ran.clone();
    server.pool().spawn(move || *flag.lock().unwrap() = true);
    assert!(*ran.lock().unwrap());
}

#[test]
fn set_foo_bar_then_get_foo_prints_bar() {
    let engine = MemoryEngine::new();
    assert_eq!(exchange(&engine, &put("foo", "bar")), r#"{"Ok":null}"#);
    let wire = exchange(&engine, &get("foo"));
    assert_eq!(wire, r#"{"Ok":"bar"}"#);
    let report = Report::of_get(decode_get(wire.as_bytes()).unwrap().into_result());
    assert_eq!(report.stdout.as_deref(), Some("bar"));
    assert_eq!(report.stderr, None);
    assert_eq!(report.exit_code, 0);
}

#[test]
fn get_of_a_missing_key_prints_key_not_found_and_succeeds() {
    let engine = MemoryEngine::new();
    let wire = exchange(&engine, &get("missing"));
    assert_eq!(wire, r#"{"Ok":null}"#);
    let report = Report::of_get(decode_get(wire.as_bytes()).unwrap().into_result());
    assert_eq!(report.stdout.as_deref(), Some("Key not found"));
    assert_eq!(report.stderr, None);
    assert_eq!(report.exit_code, 0);
}

#[test]
fn the_second_set_of_a_key_is_the_one_that_is_read() {
    let engine = MemoryEngine::new();
    exchange(&engine, &put("k", "v1"));
    exchange(&engine, &put("k", "v2"));
    assert_eq!(exchange(&engine, &get("k")), r#"{"Ok":"v2"}"#);
}

#[test]
fn rm_of_a_removed_key_prints_key_not_found_and_fails() {
    let engine = MemoryEngine::new();
    exchange(&engine, &put("k", "v"));
    let wire = exchange(&engine, &remove("k"));
    let report = Report::of_remove(decode_remove(wire.as_bytes()).unwrap().into_result());
    assert_eq!((report.stdout, report.stderr, report.exit_code), (None, None, 0));

    let wire = exchange(&engine, &get("k"));
    let report = Report::of_get(decode_get(wire.as_bytes()).unwrap().into_result());
    assert_eq!(report.stdout.as_deref(), Some("Key not found"));
    assert_eq!(report.exit_code, 0);

    let wire = exchange(&engine, &remove("k"));
    assert_eq!(wire, r#"{"Err":"Key not found"}"#);
    let report = Report::of_remove(decode_remove(wire.as_bytes()).unwrap().into_result());
    assert_eq!(report.stdout.as_deref(), Some("Key not found"));
    assert_eq!(report.stderr, None);
    assert_eq!(report.exit_code, 1);
}

#[test]
fn reports_put_other_errors_on_the_standard_error() {
    let report = Report::of_remove(Err(KvsError::KeyNotFound));
    assert_eq!(report.stdout.as_deref(), Some("Key not found"));
    assert_eq!(report.exit_code, 1);

    let report = Report::of_remove(Err(KvsError::ServerErrorMessage("disk full".to_string())));
    assert_eq!(report.stdout, None);
    assert_eq!(report.stderr.as_deref(), Some("server error: disk full"));
    assert_eq!(report.exit_code, 1);

    let report = Report::of_set(Err(KvsError::UnknownEngineType));
    assert_eq!(report.stdout, None);
    assert_eq!(report.stderr.as_deref(), Some("Unknown engine type"));
    assert_eq!(report.exit_code, 1);
    let report = Report::of_set(Ok(()));
    assert_eq!((report.stdout, report.stderr, report.exit_code), (None, None, 0));

    let report = Report::of_get(Err(KvsError::ServerErrorMessage("Key not found".to_string())));
    assert_eq!(report.stdout, None);
    assert_eq!(report.stderr.as_deref(), Some("server error: Key not found"));
    assert_eq!(report.exit_code, 1);
}

#[test]
fn the_marker_names_the_engine() {
    assert!(matches!(engine_type_of(None), Ok(None)));
    assert!(matches!(engine_type_of(Some("kvs")), Ok(Some(EngineType::kvs))));
    assert!(matches!(engine_type_of(Some("sled")), Ok(Some(EngineType::sled))));
    for content in ["", "kvs\n", " kvs", "KVS", "sled ", "bitcask", "kvssled"] {
        assert!(matches!(engine_type_of(Some(content)), Err(KvsError::UnknownEngineType)), "{:?}", content);
    }
}

#[test]
fn an_engine_is_written_and_read_by_its_name() {
    assert_eq!(EngineType::kvs.name(), "kvs");
    assert_eq!(EngineType::sled.name(), "sled");
    assert_eq!(EngineType::parse("kvs"), Some(EngineType::kvs));
    assert_eq!(EngineType::parse("sled"), Some(EngineType::sled));
    assert_eq!(EngineType::parse("Sled"), None);
    for engine in [EngineType::kvs, EngineType::sled] {
        assert_eq!(EngineType::parse(&engine.name()), Some(engine));
        assert!(matches!(engine_type_of(Some(&engine.name())), Ok(Some(e)) if e == engine));
    }
}

#[test]
fn a_directory_of_one_engine_is_refused_to_the_other() {
    assert!(check_engine_type(None, EngineType::kvs).is_ok());
    assert!(check_engine_type(None, EngineType::sled).is_ok());
    assert!(check_engine_type(Some(EngineType::kvs), EngineType::kvs).is_ok());
    assert!(check_engine_type(Some(EngineType::sled), EngineType::sled).is_ok());
    assert!(matches!(
        check_engine_type(Some(EngineType::kvs), EngineType::sled),
        Err(KvsError::IncompatibleEngineType)
    ));
    assert!(matches!(
        check_engine_type(Some(EngineType::sled), EngineType::kvs),
        Err(KvsError::IncompatibleEngineType)
    ));
    let previous = engine_type_of(Some(&EngineType::kvs.name())).unwrap();
    let refusal = check_engine_type(previous, EngineType::sled).unwrap_err();
    assert_eq!(refusal.message(), "Incompatible engine type");
}

#[test]
fn errors_have_their_messages() {
    assert_eq!(KvsError::KeyNotFound.message(), "Key not found");
    assert_eq!(KvsError::UnknownCommand.message(), "Unknown command");
    assert_eq!(KvsError::LogFileNotFound.message(), "toy bitcask error: Log file not found");
    assert_eq!(KvsError::UnknownEngineType.message(), "Unknown engine type");
    assert_eq!(KvsError::IncompatibleEngineType.message(), "Incompatible engine type");
    assert_eq!(KvsError::ServerErrorMessage("boom".to_string()).message(), "server error: boom");
    let io = std::io::Error::new(std::io::ErrorKind::Other, "gone");
    assert_eq!(KvsError::from(io).message(), "io error: gone");
    let serde = serde_json::from_str::<serde_json::Value>("{").unwrap_err();
    let expected = format!("serde error: {}", serde);
    assert_eq!(KvsError::from(serde).message(), expected);
    let utf8 = String::from_utf8(vec![0xff]).unwrap_err();
    let expected = format!("encoding error: {}", utf8);
    assert_eq!(KvsError::from(utf8).message(), expected);
    let sled = sled::Error::Unsupported("nothing".to_string());
    let expected = format!("sled error: {}", sled);
    assert_eq!(KvsError::from(sled).message(), expected);
}

#[test]
fn errors_from_outside_keep_their_kind() {
    assert!(matches!(KvsError::from(std::io::Error::new(std::io::ErrorKind::Other, "x")), KvsError::IOError(_)));
    assert!(matches!(
        KvsError::from(serde_json::from_str::<serde_json::Value>("").unwrap_err()),
        KvsError::SerdeError(_)
    ));
    assert!(matches!(KvsError::from(String::from_utf8(vec![0x80]).unwrap_err()), KvsError::EncodingError(_)));
    assert!(matches!(KvsError::from(sled::Error::Unsupported(String::new())), KvsError::SledError(_)));
}

#[test]
fn the_tree_engine_reads_bytes_as_strings() {
    assert!(matches!(value_of(None), Ok(None)));
    assert!(matches!(value_of(Some(b"value".to_vec())), Ok(Some(v)) if v == "value"));
    assert!(matches!(value_of(Some(Vec::new())), Ok(Some(v)) if v.is_empty()));
    assert!(matches!(value_of(Some("grüße 🦀".as_bytes().to_vec())), Ok(Some(v)) if v == "grüße 🦀"));
    assert!(matches!(value_of(Some(vec![0xff, 0xfe])), Err(KvsError::EncodingError(_))));
    assert!(matches!(value_of(Some(vec![b'a', 0xc3])), Err(KvsError::EncodingError(_))));
}

#[test]
fn the_tree_engine_fails_a_removal_that_took_nothing() {
    assert!(removed(Some(b"old".to_vec())).is_ok());
    assert!(removed(Some(Vec::new())).is_ok());
    assert!(matches!(removed(None), Err(KvsError::KeyNotFound)));
}

#[test]
fn the_store_in_memory_maps_keys_to_values() {
    let mut store = kvs::kv::KvStore::new();
    assert_eq!(store.get("k".to_string()), None);
    store.set("k".to_string(), "v1".to_string());
    store.set("q".to_string(), "w".to_string());
    assert_eq!(store.get("k".to_string()), Some("v1".to_string()));
    store.set("k".to_string(), "v2".to_string());
    assert_eq!(store.get("k".to_string()), Some("v2".to_string()));
    store.remove("k".to_string());
    assert_eq!(store.get("k".to_string()), None);
    store.remove("k".to_string());
    assert_eq!(store.get("q".to_string()), Some("w".to_string()));
}

#[test]
fn json_objects_are_searched_by_name() {
    let object = Json::Object(vec![
        ("a".to_string(), Json::Number(Some(1))),
        ("b".to_string(), Json::Text("two".to_string())),
        ("a".to_string(), Json::Null),
    ]);
    assert!(matches!(object.get("a"), Some(Json::Number(Some(1)))));
    assert!(matches!(object.get("b"), Some(Json::Text(t)) if t == "two"));
    assert!(object.get("c").is_none());
    assert!(Json::Null.get("a").is_none());
    assert!(Json::Text("a".to_string()).get("a").is_none());
    assert!(Json::Array(vec![Json::Bool(true)]).get("a").is_none());
}

#[test]
fn the_command_line_runs_its_command_on_the_engine() {
    let engine = MemoryEngine::new();
    let run = |command: Command| {
        let report = KvsCliOption { command }.run(&engine);
        (report.stdout, report.stderr, report.exit_code)
    };
    let line = |text: &str| Some(text.to_string());
    assert_eq!(run(Command::get { key: "k".to_string() }), (line("Key not found"), None, 0));
    assert_eq!(run(Command::rm { key: "k".to_string() }), (line("Key not found"), None, 1));
    assert_eq!(run(Command::set { key: "k".to_string(), value: "v1".to_string() }), (None, None, 0));
    assert_eq!(run(Command::set { key: "k".to_string(), value: "v2".to_string() }), (None, None, 0));
    assert_eq!(run(Command::get { key: "k".to_string() }), (line("v2"), None, 0));
    assert_eq!(run(Command::rm { key: "k".to_string() }), (None, None, 0));
    assert_eq!(run(Command::get { key: "k".to_string() }), (line("Key not found"), None, 0));
    assert_eq!(run(Command::rm { key: "k".to_string() }), (line("Key not found"), None, 1));
}

#[test]
fn a_connection_is_served_request_by_request() {
    let engine = MemoryEngine::new();
    let mut pending: Vec<u8> = Vec::new();
    let mut answers: Vec<String> = Vec::new();
    let wire = format!(
        "{}{} \n{}{}",
        put("a", "1").encode().unwrap(),
        get("a").encode().unwrap(),
        remove("a").encode().unwrap(),
        get("a").encode().unwrap()
    );
    // The bytes arrive a few at a time.
    for piece in wire.as_bytes().chunks(7) {
        pending.extend_from_slice(piece);
        loop {
            match KvsServer::<MemoryEngine, InlinePool>::serve_next(&engine, &pending) {
                Step::Answer { text, consumed } => {
                    answers.push(text);
                    pending.drain(..consumed);
                }
                Step::Idle => {
                    break;
                }
                Step::Partial(e) => {
                    assert!(matches!(e, KvsError::SerdeError(_)));
                    break;
                }
                Step::Fail(e) => panic!("{:?}", e),
            }
        }
    }
    assert!(pending.is_empty());
    assert_eq!(answers, vec![r#"{"Ok":null}"#, r#"{"Ok":"1"}"#, r#"{"Ok":null}"#, r#"{"Ok":null}"#]);
}

#[test]
fn serve_next_tells_what_the_bytes_call_for() {
    let engine = MemoryEngine::new();
    let serve = |bytes: &[u8]| KvsServer::<MemoryEngine, InlinePool>::serve_next(&engine, bytes);
    assert!(matches!(serve(b""), Step::Idle));
    assert!(matches!(serve(b" \n "), Step::Idle));
    assert!(matches!(serve(br#"{"Get":{"ke"#), Step::Partial(KvsError::SerdeError(_))));
    assert!(matches!(serve(br#"{"Get":{"key":"k"}"#), Step::Partial(KvsError::SerdeError(_))));
    assert!(matches!(serve(br#"{"Get":{"key":"k"}}"#), Step::Answer { text, consumed: 19 } if text == r#"{"Ok":null}"#));
    assert!(matches!(
        serve(br#"  {"Set":{"key":"k","value":"v"}}{"Get""#),
        Step::Answer { text, consumed: 33 } if text == r#"{"Ok":null}"#
    ));
    assert!(matches!(serve(br#"{"Remove":{"key":"zz"}}"#), Step::Answer { text, .. } if text == r#"{"Err":"Key not found"}"#));
    assert!(matches!(serve(br#"{"Scan":{"key":"k"}}"#), Step::Fail(KvsError::SerdeError(_))));
    assert!(matches!(serve(b"get k"), Step::Fail(KvsError::SerdeError(_))));
    assert!(matches!(serve(b"[1,2]"), Step::Fail(KvsError::SerdeError(_))));
}

#[test]
fn frames_are_cut_from_a_stream_of_values() {
    assert!(matches!(next_frame(b""), Frame::Nothing));
    assert!(matches!(next_frame(b"  \t\r\n"), Frame::Nothing));
    assert!(matches!(next_frame(b"{\"a\":1}{"), Frame::Value { consumed: 7, .. }));
    assert!(matches!(next_frame(b" [1, 2] 3"), Frame::Value { json: Json::Array(items), consumed: 7 } if items.len() == 2));
    assert!(matches!(next_frame(b"\"text\""), Frame::Value { json: Json::Text(t), consumed: 6 } if t == "text"));
    assert!(matches!(next_frame(b"null "), Frame::Value { json: Json::Null, consumed: 4 }));
    assert!(matches!(next_frame(b"-12 "), Frame::Value { json: Json::Number(Some(-12)), consumed: 3 }));
    assert!(matches!(next_frame(b"1.5 "), Frame::Value { json: Json::Number(None), consumed: 3 }));
    assert!(matches!(next_frame(b"true,"), Frame::Value { json: Json::Bool(true), consumed: 4 }));
    assert!(matches!(next_frame(b"{\"a\":"), Frame::Partial(KvsError::SerdeError(_))));
    assert!(matches!(next_frame(b"\"unfinished"), Frame::Partial(KvsError::SerdeError(_))));
    assert!(matches!(next_frame(b"}"), Frame::Broken(KvsError::SerdeError(_))));
    assert!(matches!(next_frame(b"{\"a\" 1}"), Frame::Broken(KvsError::SerdeError(_))));
}

#[test]
fn every_whole_request_gets_its_answer() {
    let engine = MemoryEngine::new();
    let serve = |bytes: &[u8]| KvsServer::<MemoryEngine, InlinePool>::serve_next(&engine, bytes);
    let wire = br#"{"Remove":{"key":"k"}}{"Get":{"key":"k"}}"#;
    let first = match serve(wire) {
        Step::Answer { text, consumed } => {
            assert_eq!(text, r#"{"Err":"Key not found"}"#);
            consumed
        }
        other => panic!("{:?}", other),
    };
    assert_eq!(first, 22);
    match serve(&wire[first..]) {
        Step::Answer { text, consumed } => {
            assert_eq!(text, r#"{"Ok":null}"#);
            assert_eq!(first + consumed, wire.len());
        }
        other => panic!("{:?}", other),
    }
    assert!(matches!(serve(&wire[wire.len()..]), Step::Idle));
}

#[test]
fn the_engine_gets_the_key_and_the_value_as_they_are() {
    let engine = MemoryEngine::new();
    let key = "a key\n with \"marks\" and \u{1F980}";
    let value = "  {\"Get\":{\"key\":\"x\"}}  ";
    assert_eq!(exchange(&engine, &put(key, value)), r#"{"Ok":null}"#);
    assert_eq!(engine.get(key.to_string()).unwrap(), Some(value.to_string()));
    let report = KvsCliOption { command: Command::get { key: key.to_string() } }.run(&engine);
    assert_eq!(report.stdout.as_deref(), Some(value));
    let report = KvsCliOption { command: Command::rm { key: key.to_string() } }.run(&engine);
    assert_eq!((report.stdout, report.stderr, report.exit_code), (None, None, 0));
    assert_eq!(engine.get(key.to_string()).unwrap(), None);
}

#[test]
fn encoding_never_fails() {
    for text in ["", "plain", "\u{0}\u{1f}\u{7f}", "\"\\/", "\u{2028}\u{2029}", "\u{10FFFF}", "\r\n\t"] {
        assert!(put(text, text).encode().is_ok());
        assert!(get(text).encode().is_ok());
        assert!(remove(text).encode().is_ok());
        assert!(GetResponse::Success(Some(text.to_string())).encode().is_ok());
        assert!(SetResponse::Failure(text.to_string()).encode().is_ok());
        assert!(RemoveResponse::Failure(text.to_string()).encode().is_ok());
        assert!(Response::Get(GetResponse::Failure(text.to_string())).encode().is_ok());
    }
    assert_eq!(Response::Put(SetResponse::Success(())).encode().unwrap(), r#"{"Ok":null}"#);
    assert_eq!(Response::Remove(RemoveResponse::Success(())).encode().unwrap(), r#"{"Ok":null}"#);
    assert_eq!(Response::Get(GetResponse::Success(None)).encode().unwrap(), r#"{"Ok":null}"#);
}
