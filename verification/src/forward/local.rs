//! The answers of the local storage endpoint.
use vstd::prelude::*;

use crate::common::error::Error;
use crate::common::response::{is_failure, success_msg, ResponseVo};

verus! {

/// The storage step that failed.
#[derive(Debug, Clone, Copy, PartialEq, Eq)]
pub enum SaveStage {
    /// Storing in Elasticsearch.
    Elastic,
    /// Connecting to Kafka.
    KafkaClient,
    /// Sending to Kafka.
    Kafka,
}

/// The words in front of the reason, for each failed step.
pub open spec fn stage_prefix(stage: SaveStage) -> Seq<char> {
    match stage {
        SaveStage::Elastic => "save to elastic err :"@,
        SaveStage::KafkaClient => "kfk_client err :"@,
        SaveStage::Kafka => "save to kafka err :"@,
    }
}

/// The failed answer when a storage step fails with `err`.
pub fn local_save_failure(stage: SaveStage, err: &Error) -> (r: ResponseVo<()>)
    ensures
        r.code == 1,
        !r.status,
        r.msg@ == stage_prefix(stage) + err.text(),
        r.body is None,
{
    let mut msg = match stage {
        SaveStage::Elastic => String::from_str("save to elastic err :"),
        SaveStage::KafkaClient => String::from_str("kfk_client err :"),
        SaveStage::Kafka => String::from_str("save to kafka err :"),
    };
    let reason = err.message();
    msg.append(reason.as_str());
    ResponseVo::<()>::from_error(&Error::E(msg))
}

/// The answer when the document was stored in both places.
pub fn local_save_success() -> (r: ResponseVo<String>)
    ensures
        r.code == 0,
        r.status,
        r.msg@ == success_msg(),
        r.body matches Some(b) && b@ == "Are you ok!"@,
{
    let msg = String::from_str("Are you ok!");
    ResponseVo::<String>::from(&msg)
}

/// The answer when the document was stored.
pub open spec fn saved_answer(a: ResponseVo<String>) -> bool {
    &&& a.code == 0
    &&& a.status
    &&& a.msg@ == success_msg()
    &&& a.body matches Some(b) && b@ == "Are you ok!"@
}

/// What the storage handler does after a step has ended with `outcome`.
#[derive(Debug, Clone)]
pub enum SaveNext {
    /// Go on with this step.
    Continue(SaveStage),
    /// Stop and give this failed answer.
    Failed(ResponseVo<()>),
    /// The document is stored in both places: give this answer.
    Saved(ResponseVo<String>),
}

/// The steps of local storage in order: store in Elasticsearch, connect to
/// Kafka, send to Kafka. The first step that fails ends the handling with its
/// failed answer; after the last one the success answer is given.
pub fn local_save_next(done: SaveStage, outcome: &Result<(), Error>) -> (r: SaveNext)
    ensures
        match outcome {
            Err(e) => r matches SaveNext::Failed(a) && is_failure(a, stage_prefix(done) + e.text()),
            Ok(_) => match done {
                SaveStage::Elastic => r == SaveNext::Continue(SaveStage::KafkaClient),
                SaveStage::KafkaClient => r == SaveNext::Continue(SaveStage::Kafka),
                SaveStage::Kafka => r matches SaveNext::Saved(a) && saved_answer(a),
            },
        },
{
    match outcome {
        Err(e) => SaveNext::Failed(local_save_failure(done, e)),
        Ok(_) => match done {
            SaveStage::Elastic => SaveNext::Continue(SaveStage::KafkaClient),
            SaveStage::KafkaClient => SaveNext::Continue(SaveStage::Kafka),
            SaveStage::Kafka => SaveNext::Saved(local_save_success()),
        },
    }
}

} // verus!
