use bees::common::error::Error;
use bees::common::response::ResponseVo;
use bees::forward::local::{local_save_failure, local_save_next, local_save_success, SaveNext, SaveStage};
use bees::output::handlers::{es_index_request, kafka_source, Document};

fn doc(index: Option<&str>, id: Option<&str>, source: Option<&str>) -> Document {
    Document {
        index: index.map(|s| s.to_string()),
        id: id.map(|s| s.to_string()),
        source: source.map(|s| s.to_string()),
        source_has_table: source.and_then(|s| if s.starts_with('{') { Some(s.contains("\"table\"")) } else { None }),
    }
}

fn msg(r: Result<String, Error>) -> String {
    match r {
        Ok(_) => "ok".to_string(),
        Err(e) => e.message(),
    }
}

#[test]
fn members_or_errors() {
    let d = doc(Some("\"ioc\""), None, Some("{\"a\":1}"));
    assert_eq!(d.get_index().unwrap(), "\"ioc\"");
    assert_eq!(msg(d.get_id()), "no id");
    assert_eq!(d.get_source().unwrap(), "{\"a\":1}");
    let e = doc(None, None, None);
    assert_eq!(msg(e.get_index()), "no index");
    assert_eq!(msg(e.get_source()), "no body");
}

#[test]
fn es_request_strips_quotes_and_backslashes() {
    let d = doc(Some("\"ioc\""), Some("\"a\\\"b\""), Some("{\"a\":1}"));
    let q = es_index_request(&d).unwrap();
    assert_eq!(q.index, "ioc");
    assert_eq!(q.id, "ab");
    assert_eq!(q.body, "{\"a\":1}");
    let q = es_index_request(&doc(Some("12"), Some("7"), Some("null"))).unwrap();
    assert_eq!(q.index, "12");
    assert_eq!(q.id, "7");
}

#[test]
fn es_request_errors_in_order() {
    let m = |d: Document| es_index_request(&d).err().unwrap().message();
    assert_eq!(m(doc(None, None, None)), "no index");
    assert_eq!(m(doc(Some("1"), None, None)), "no id");
    assert_eq!(m(doc(Some("1"), Some("2"), None)), "no body");
}

#[test]
fn kafka_needs_index_then_source() {
    assert_eq!(msg(kafka_source(&doc(None, None, Some("{}")))), "no index");
    assert_eq!(msg(kafka_source(&doc(Some("\"t\""), None, None))), "no body");
    assert_eq!(kafka_source(&doc(Some("\"t\""), None, Some("{\"table\":2}"))).unwrap(), "{\"table\":2}");
    assert_eq!(kafka_source(&doc(Some("\"t\""), None, Some("[1]"))).unwrap(), "[1]");
    // a source object without `table` is only refused when index and source are there
    assert_eq!(msg(kafka_source(&doc(None, None, Some("{\"x\":2}")))), "no index");
}

#[test]
fn save_answers() {
    let r = local_save_failure(SaveStage::Elastic, &Error::E("boom".to_string()));
    assert_eq!(r.msg, "save to elastic err :boom");
    assert_eq!(r.code, 1);
    assert!(!r.status);
    let r = local_save_failure(SaveStage::KafkaClient, &Error::from_text("x"));
    assert_eq!(r.msg, "kfk_client err :x");
    let r = local_save_failure(SaveStage::Kafka, &Error::from_text("y"));
    assert_eq!(r.msg, "save to kafka err :y");
    let ok = local_save_success();
    assert_eq!(ok.code, 0);
    assert_eq!(ok.body, Some("Are you ok!".to_string()));
    assert_eq!(ok.msg, "成功");
}

#[test]
fn response_constructors() {
    let ok: ResponseVo<u32> = ResponseVo::from_result(&Ok(5));
    assert!(ok.status);
    assert_eq!(ok.code, 0);
    assert_eq!(ok.msg, "成功");
    assert_eq!(ok.body, Some(5));
    let err: ResponseVo<u32> = ResponseVo::from_result(&Err(Error::from_text("bad")));
    assert!(!err.status);
    assert_eq!(err.code, 1);
    assert_eq!(err.msg, "bad");
    assert_eq!(err.body, None);
    let f = ResponseVo::from(&vec!["a".to_string()]);
    assert_eq!(f.body, Some(vec!["a".to_string()]));
    let e: ResponseVo<()> = ResponseVo::from_error(&Error::E("m".to_string()));
    assert_eq!((e.code, e.status, e.msg.as_str()), (1, false, "m"));
    let i: ResponseVo<()> = ResponseVo::from_error_info("info");
    assert_eq!((i.code, i.status, i.msg.as_str(), i.body), (1, false, "info", None));
}

#[test]
fn save_steps_in_order() {
    let ok: Result<(), Error> = Ok(());
    assert!(matches!(local_save_next(SaveStage::Elastic, &ok), SaveNext::Continue(SaveStage::KafkaClient)));
    assert!(matches!(local_save_next(SaveStage::KafkaClient, &ok), SaveNext::Continue(SaveStage::Kafka)));
    match local_save_next(SaveStage::Kafka, &ok) {
        SaveNext::Saved(a) => {
            assert_eq!(a.msg, "成功");
            assert_eq!(a.body, Some("Are you ok!".to_string()));
        }
        _ => panic!("expected the success answer"),
    }
    match local_save_next(SaveStage::KafkaClient, &Err(Error::from_text("down"))) {
        SaveNext::Failed(a) => {
            assert_eq!(a.msg, "kfk_client err :down");
            assert_eq!(a.code, 1);
        }
        _ => panic!("expected a failed answer"),
    }
}
