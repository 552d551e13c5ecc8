//! The competitions that the board knows.
use vstd::prelude::*;

verus! {

/// A competition.
#[derive(Clone, Copy, Debug, PartialEq, Eq, Structural)]
pub enum Competition {
    Kbo,
    AsianGames,
}

impl Competition {
    /// The name of the competition for the service.
    pub open spec fn category(self) -> Seq<char> {
        match self {
            Competition::Kbo => "kbo"@,
            Competition::AsianGames => "agbaseball"@,
        }
    }

    /// The title of the board.
    pub open spec fn title(self) -> Seq<char> {
        match self {
            Competition::Kbo => "KBO LIVE"@,
            Competition::AsianGames => "ASIAN GAMES BASEBALL"@,
        }
    }

    /// The mark on each panel.
    pub open spec fn mark(self) -> Seq<char> {
        match self {
            Competition::Kbo => "KBO"@,
            Competition::AsianGames => "AG"@,
        }
    }

    /// What stands on a board without games.
    pub open spec fn no_games(self) -> Seq<char> {
        match self {
            Competition::Kbo => "오늘 KBO 경기가 없습니다."@,
            Competition::AsianGames => "오늘 아시안게임 야구 경기가 없습니다."@,
        }
    }

    /// The name of the competition for the service.
    pub fn category_id(self) -> (id: &'static str)
        ensures
            id@ == self.category(),
    {
        match self {
            Competition::Kbo => "kbo",
            Competition::AsianGames => "agbaseball",
        }
    }

    /// The title of the board.
    pub fn header(self) -> (title: &'static str)
        ensures
            title@ == self.title(),
    {
        match self {
            Competition::Kbo => "KBO LIVE",
            Competition::AsianGames => "ASIAN GAMES BASEBALL",
        }
    }

    /// The mark on each panel.
    pub fn panel_label(self) -> (label: &'static str)
        ensures
            label@ == self.mark(),
    {
        match self {
            Competition::Kbo => "KBO",
            Competition::AsianGames => "AG",
        }
    }

    /// What stands on a board without games.
    pub fn empty_message(self) -> (message: &'static str)
        ensures
            message@ == self.no_games(),
    {
        match self {
            Competition::Kbo => "오늘 KBO 경기가 없습니다.",
            Competition::AsianGames => "오늘 아시안게임 야구 경기가 없습니다.",
        }
    }
}

/// No two competitions are asked for, titled, marked or missed alike.
pub proof fn law_competitions_differ()
    ensures
        Competition::Kbo.category() != Competition::AsianGames.category(),
        Competition::Kbo.title() != Competition::AsianGames.title(),
        Competition::Kbo.mark() != Competition::AsianGames.mark(),
        Competition::Kbo.no_games() != Competition::AsianGames.no_games(),
{
    reveal_strlit("kbo");
    reveal_strlit("agbaseball");
    reveal_strlit("KBO LIVE");
    reveal_strlit("ASIAN GAMES BASEBALL");
    reveal_strlit("KBO");
    reveal_strlit("AG");
    reveal_strlit("오늘 KBO 경기가 없습니다.");
    reveal_strlit("오늘 아시안게임 야구 경기가 없습니다.");
    assert("kbo"@.len() != "agbaseball"@.len());
    assert("KBO LIVE"@.len() != "ASIAN GAMES BASEBALL"@.len());
    assert("KBO"@.len() != "AG"@.len());
    assert("오늘 KBO 경기가 없습니다."@.len() != "오늘 아시안게임 야구 경기가 없습니다."@.len());
}

} // verus!
