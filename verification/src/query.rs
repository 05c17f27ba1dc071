//! Answering a query for the summaries of some symbols.

use vstd::prelude::*;
use crate::stock_data::{summary_in, Market, StockData};
use crate::summary::StockSummary;
use crate::text::{collect_pieces, names_of, split, split_bounds, to_chars};

verus! {

/// A query: the names of the symbols asked for, separated by commas.
#[derive(Debug)]
pub struct StockQuery {
    pub stocks: String,
}

/// One answer: a symbol and its summary.
#[derive(Debug)]
pub struct SummaryResponse {
    pub stock: String,
    pub summary: StockSummary,
}

/// The answers as the model sees them: names and summaries.
pub open spec fn responses_of(responses: Seq<SummaryResponse>) -> Seq<(Seq<char>, StockSummary)> {
    Seq::new(responses.len(), |i: int| (responses[i].stock@, responses[i].summary))
}

/// The answers to a list of names: one for each name that has a summary, in
/// the order of the names. A name without one is left out: a symbol that
/// has no price yet, or a name that is not tracked.
pub open spec fn answers(names: Seq<Seq<char>>, market: Market) -> Seq<(Seq<char>, StockSummary)>
    decreases names.len(),
{
    if names.len() == 0 {
        Seq::empty()
    } else {
        let earlier = answers(names.drop_last(), market);
        match summary_in(market, names.last()) {
            Some(summary) => earlier.push((names.last(), summary)),
            None => earlier,
        }
    }
}

/// Names without a summary get no answer, whatever they are.
pub proof fn lemma_unknown_names_get_no_answer(names: Seq<Seq<char>>, market: Market)
    requires
        forall|i: int| 0 <= i < names.len() ==> summary_in(market, #[trigger] names[i]) is None,
    ensures
        answers(names, market).len() == 0,
    decreases names.len(),
{
    if names.len() > 0 {
        let earlier = names.drop_last();
        assert forall|i: int| 0 <= i < earlier.len() implies summary_in(
            market,
            #[trigger] earlier[i],
        ) is None by {
            assert(earlier[i] == names[i]);
        }
        lemma_unknown_names_get_no_answer(earlier, market);
        assert(names.last() == names[names.len() - 1]);
    }
}

/// There are never more answers than names, and every answer is for a name
/// that was asked for and carries the summary of that name.
pub proof fn lemma_answers_are_asked_for(names: Seq<Seq<char>>, market: Market, i: int)
    requires
        0 <= i < answers(names, market).len(),
    ensures
        answers(names, market).len() <= names.len(),
        names.contains(answers(names, market)[i].0),
        summary_in(market, answers(names, market)[i].0) == Some(answers(names, market)[i].1),
    decreases names.len(),
{
    if names.len() > 0 {
        let earlier = names.drop_last();
        lemma_answers_length(earlier, market);
        if i < answers(earlier, market).len() {
            lemma_answers_are_asked_for(earlier, market, i);
            let name = answers(earlier, market)[i].0;
            let at = choose|k: int| 0 <= k < earlier.len() && earlier[k] == name;
            assert(names[at] == name);
        } else {
            assert(names[names.len() - 1] == names.last());
        }
    }
}

/// There are never more answers than names.
pub proof fn lemma_answers_length(names: Seq<Seq<char>>, market: Market)
    ensures
        answers(names, market).len() <= names.len(),
    decreases names.len(),
{
    if names.len() > 0 {
        lemma_answers_length(names.drop_last(), market);
    }
}

/// The summaries of the symbols named in `stocks`, leaving out each name
/// that has none.
pub fn get_summaries_for(stock_data: &StockData, stocks: &Vec<String>) -> (result: Vec<
    SummaryResponse,
>)
    requires
        stock_data.wf(),
    ensures
        responses_of(result@) == answers(names_of(stocks@), stock_data@),
{
    let ghost names = names_of(stocks@);
    let mut result: Vec<SummaryResponse> = Vec::new();
    let mut i: usize = 0;
    while i < stocks.len()
        invariant
            i <= stocks@.len(),
            stock_data.wf(),
            names == names_of(stocks@),
            responses_of(result@) == answers(names.take(i as int), stock_data@),
        decreases stocks@.len() - i,
    {
        assert(names.take(i + 1).drop_last() == names.take(i as int));
        let ghost earlier = responses_of(result@);
        match stock_data.get_summary(stocks[i].as_str()) {
            Some(summary) => {
                result.push(SummaryResponse { stock: stocks[i].clone(), summary });
                assert(responses_of(result@) =~= earlier.push((names[i as int], summary)));
            },
            None => {},
        }
        i += 1;
    }
    assert(names.take(i as int) == names);
    result
}

/// Answers a query: the summaries of the symbols that it names between
/// commas, leaving out each name that has none.
pub fn get_summary(stock_data: &StockData, query: &StockQuery) -> (result: Vec<SummaryResponse>)
    requires
        stock_data.wf(),
    ensures
        responses_of(result@) == answers(split(query.stocks@, ','), stock_data@),
{
    let chars = to_chars(query.stocks.as_str());
    let ranges = split_bounds(&chars, 0, chars.len(), ',');
    assert(chars@.subrange(0, chars@.len() as int) == chars@);
    let stocks = collect_pieces(&chars, &ranges);
    get_summaries_for(stock_data, &stocks)
}

} // verus!
