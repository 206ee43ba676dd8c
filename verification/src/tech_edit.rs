//! A player's technology points: the checks and the report around reading
//! and writing them. Finding the world, and the reading and writing of the
//! player's save, are the caller's work, handed in as closures.

use vstd::prelude::*;
use crate::models::{
    EditResult, PlayerTechnologyPoints, PlayerTechnologyPointsRequest,
    UpdatePlayerTechnologyPointsRequest,
};
use crate::modifier::MAX_TECHNOLOGY_POINTS;
use crate::text::{decimal_text, push_decimal, push_str};

verus! {

/// Both counts lie in `0..=9_999_999`.
pub open spec fn points_in_range(t: i32, a: i32) -> bool {
    0 <= t <= MAX_TECHNOLOGY_POINTS && 0 <= a <= MAX_TECHNOLOGY_POINTS
}

/// The note left after setting the points.
pub open spec fn points_note(t: i32, a: i32) -> Seq<char> {
    "普通科技点已设为 "@ + decimal_text(t as nat) + "，古代科技点已设为 "@ + decimal_text(a as nat)
}

/// Reads a player's technology points: `find_world_data_dir` locates the
/// world's data directory (refused when there is none), then `read_points`
/// reads the player's save there.
pub fn player_technology_points_impl<D, W, R>(
    req: &PlayerTechnologyPointsRequest,
    find_world_data_dir: W,
    read_points: R,
) -> (r: Result<PlayerTechnologyPoints, String>) where
    W: FnOnce() -> Option<D>,
    R: FnOnce(D) -> Result<PlayerTechnologyPoints, String>,

    requires
        call_requires(find_world_data_dir, ()),
        forall|d: D| call_requires(read_points, (d,)),
    ensures
        r matches Ok(p) ==> exists|d: D|
            call_ensures(find_world_data_dir, (), Some(d)) && call_ensures(
                read_points,
                (d,),
                Ok::<PlayerTechnologyPoints, String>(p),
            ),
        (forall|o: Option<D>| call_ensures(find_world_data_dir, (), o) ==> o is None) ==> (r matches Err(
            e,
        ) && e@ == "未找到世界数据(Level.sav)"@),
        r matches Err(e) ==> (e@ == "未找到世界数据(Level.sav)"@ && call_ensures(find_world_data_dir, (), None::<D>))
            || exists|d: D| #[trigger] call_ensures(find_world_data_dir, (), Some(d)) && call_ensures(
            read_points,
            (d,),
            Err::<PlayerTechnologyPoints, String>(e),
        ),
{
    let found = find_world_data_dir();
    let dir = match found {
        Some(d) => d,
        None => return Err(String::from_str("未找到世界数据(Level.sav)")),
    };
    let ghost dg = dir;
    let r = read_points(dir);
    proof {
        assert(call_ensures(find_world_data_dir, (), Some(dg)));
        if let Ok(p) = r {
            assert(call_ensures(read_points, (dg,), Ok::<PlayerTechnologyPoints, String>(p)));
        }
        if r is Err {
            assert(call_ensures(read_points, (dg,), Err::<PlayerTechnologyPoints, String>(r->Err_0)));
        }
    }
    r
}

/// Sets a player's technology points: `find_world_data_dir` locates the
/// world's data directory (refused when there is none); points outside
/// `0..=9_999_999` are refused before the save is read; then `write_points`
/// rewrites the player's save there, and the result notes the new counts.
pub fn update_player_technology_points_impl<D, W, U>(
    req: &UpdatePlayerTechnologyPointsRequest,
    find_world_data_dir: W,
    write_points: U,
) -> (r: Result<EditResult, String>) where
    W: FnOnce() -> Option<D>,
    U: FnOnce(D) -> Result<EditResult, String>,

    requires
        call_requires(find_world_data_dir, ()),
        forall|d: D| call_requires(write_points, (d,)),
    ensures
        (forall|o: Option<D>| call_ensures(find_world_data_dir, (), o) ==> o is None) ==> (r matches Err(
            e,
        ) && e@ == "未找到世界数据(Level.sav)"@),
        !points_in_range(req.technology_points, req.ancient_technology_points) ==> (r matches Err(e) && (e@
            == "科技点必须介于 0 和 9999999 之间"@ || e@ == "未找到世界数据(Level.sav)"@)),
        !points_in_range(req.technology_points, req.ancient_technology_points) && (forall|o: Option<D>|
            #[trigger] call_ensures(find_world_data_dir, (), o) ==> o is Some) ==> (r matches Err(e) && e@
            == "科技点必须介于 0 和 9999999 之间"@),
        r matches Err(e) ==> {
            ||| e@ == "未找到世界数据(Level.sav)"@ && call_ensures(find_world_data_dir, (), None::<D>)
            ||| e@ == "科技点必须介于 0 和 9999999 之间"@ && !points_in_range(req.technology_points, req.ancient_technology_points)
                && exists|d: D| #[trigger] call_ensures(find_world_data_dir, (), Some(d))
            ||| points_in_range(req.technology_points, req.ancient_technology_points) && exists|d: D|
                #[trigger] call_ensures(find_world_data_dir, (), Some(d)) && call_ensures(write_points, (d,), Err::<EditResult, String>(e))
        },
        r matches Ok(res) ==> {
            &&& points_in_range(req.technology_points, req.ancient_technology_points)
            &&& res.warnings@.len() == 1
            &&& res.warnings@[0]@ == points_note(req.technology_points, req.ancient_technology_points)
            &&& exists|d: D, w: EditResult|
                call_ensures(find_world_data_dir, (), Some(d)) && call_ensures(
                    write_points,
                    (d,),
                    Ok::<EditResult, String>(w),
                ) && res.ok == w.ok && res.backup_id == w.backup_id && res.roundtrip_ok
                    == w.roundtrip_ok
        },
{
    let dir = match find_world_data_dir() {
        Some(d) => d,
        None => return Err(String::from_str("未找到世界数据(Level.sav)")),
    };
    let ghost dg = dir;
    proof {
        assert(call_ensures(find_world_data_dir, (), Some(dg)));
    }
    let t = req.technology_points;
    let a = req.ancient_technology_points;
    if !(0 <= t && t <= MAX_TECHNOLOGY_POINTS && 0 <= a && a <= MAX_TECHNOLOGY_POINTS) {
        return Err(String::from_str("科技点必须介于 0 和 9999999 之间"));
    }
    let written = match write_points(dir) {
        Ok(w) => w,
        Err(e) => {
            proof {
                assert(call_ensures(write_points, (dg,), Err::<EditResult, String>(e)));
            }
            return Err(e);
        },
    };
    let ghost wg = written;
    let mut note = String::from_str("普通科技点已设为 ");
    push_decimal(&mut note, t as u64);
    push_str(&mut note, "，古代科技点已设为 ");
    push_decimal(&mut note, a as u64);
    let mut warnings: Vec<String> = Vec::new();
    warnings.push(note);
    let result = EditResult {
        ok: written.ok,
        backup_id: written.backup_id,
        roundtrip_ok: written.roundtrip_ok,
        warnings,
    };
    proof {
        assert(call_ensures(write_points, (dg,), Ok::<EditResult, String>(wg)));
    }
    Ok(result)
}

} // verus!
